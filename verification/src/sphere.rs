//! Spheres, and where a ray meets one.
//!
//! A point `origin + t * direction` of a ray lies on the sphere where
//! `t * t + 2 * b * t + c = 0`, with `b = direction . (origin - center)` and
//! `c = |origin - center|^2 - radius^2`; the coefficient of `t * t` is one
//! because the direction has unit length. The roots are `-b -/+ sqrt(b^2 - c)`.

use vstd::prelude::*;
use crate::fixed::{
    abs, floor_sqrt, fx_mul, isqrt, lemma_abs_mul, lemma_floor_sqrt, lemma_floor_sqrt_square,
    lemma_mul_bound, lemma_square_bound, lemma_trunc_div_bound, lemma_trunc_div_exact,
    lemma_trunc_div_monotone, lemma_trunc_div_neg, lemma_trunc_div_remainder,
    lemma_trunc_div_shrinks, lemma_trunc_div_undone, trunc_div, ONE, SCENE_MAX,
};
use crate::geometry::{
    lemma_dot_bound, lemma_normalized_is_unit, lemma_stretched_is_long, Vec3, V3, STRETCH,
};
use crate::material::{Material, MaterialView};
use crate::objects::{Object, PrimitiveView};
use crate::rays::{Ray, RayView};

verus! {

/// The mathematical model of a `Sphere`.
pub struct SphereView {
    pub center: V3,
    pub radius: int,
    pub material: MaterialView,
}

/// A sphere, given by its centre and its radius.
#[derive(Clone, Copy, Debug, PartialEq, Eq)]
pub struct Sphere {
    pub center: Vec3,
    pub radius: i64,
    pub material: Material,
}

impl View for Sphere {
    type V = SphereView;

    open spec fn view(&self) -> SphereView {
        SphereView { center: self.center@, radius: self.radius as int, material: self.material@ }
    }
}

impl SphereView {
    /// The centre is within `SCENE_MAX`, the radius is positive and at most
    /// `SCENE_MAX`, and the material is valid.
    pub open spec fn wf(self) -> bool {
        &&& self.center.within(SCENE_MAX as int)
        &&& 0 < self.radius <= SCENE_MAX
        &&& self.material.wf()
    }

    /// The coefficient `b`: the dot product of the ray's direction with the
    /// vector from the centre to the ray's origin. It carries the scale
    /// `ONE * ONE`.
    pub open spec fn half_b(self, ray: RayView) -> int {
        ray.direction.dot(ray.origin.minus(self.center))
    }

    /// The coefficient `c`: the squared distance of the ray's origin from the
    /// centre, less the squared radius. It carries the scale `ONE * ONE`.
    pub open spec fn c_term(self, ray: RayView) -> int {
        ray.origin.minus(self.center).norm_sq() - self.radius * self.radius
    }

    /// The discriminant `b * b - c`, at the scale of `b * b`. The ray's line
    /// misses the sphere where it is negative.
    pub open spec fn discriminant(self, ray: RayView) -> int {
        self.half_b(ray) * self.half_b(ray) - (ONE * ONE) * self.c_term(ray)
    }

    /// The smaller root `-b - sqrt(b * b - c)`, as a fixed-point distance.
    pub open spec fn near_root(self, ray: RayView) -> int {
        trunc_div(-self.half_b(ray) - floor_sqrt(self.discriminant(ray)), ONE as int)
    }

    /// The larger root `-b + sqrt(b * b - c)`, as a fixed-point distance.
    pub open spec fn far_root(self, ray: RayView) -> int {
        trunc_div(-self.half_b(ray) + floor_sqrt(self.discriminant(ray)), ONE as int)
    }

    /// The distance at which the ray first meets the sphere: the smaller root
    /// where it is positive, else the larger one where that is positive. A
    /// ray that starts inside the sphere meets it where it leaves; a sphere
    /// behind the ray's origin is not met.
    pub open spec fn hit_distance(self, ray: RayView) -> Option<int> {
        if self.discriminant(ray) < 0 {
            None
        } else if self.near_root(ray) > 0 {
            Some(self.near_root(ray))
        } else if self.far_root(ray) > 0 {
            Some(self.far_root(ray))
        } else {
            None
        }
    }

    /// The vector from the centre to `point`, divided by the radius. It has
    /// unit length, up to rounding, where `point` lies on the sphere.
    pub open spec fn surface_normal(self, point: V3) -> V3 {
        point.minus(self.center).divided(self.radius)
    }
}

/// The smaller root is no larger than the larger one.
pub proof fn lemma_roots_ordered(s: SphereView, ray: RayView)
    requires
        s.discriminant(ray) >= 0,
    ensures
        s.near_root(ray) <= s.far_root(ray),
{
    lemma_floor_sqrt(s.discriminant(ray));
    let sq: int = floor_sqrt(s.discriminant(ray));
    lemma_trunc_div_monotone(-s.half_b(ray) - sq, -s.half_b(ray) + sq, ONE as int);
}

/// What multiplying a scalar by `r` and dividing the product by `r` can take
/// away from it, in units of resolution: `ONE / r + 1`.
pub open spec fn slack(r: int) -> int
    recommends
        r > 0,
{
    (ONE as int) / r + 1
}

/// Scaling a scalar by a positive `r` and dividing the result by `r` gives
/// back the scalar, short of at most `slack(r)` units of resolution that the
/// two roundings take away.
pub proof fn lemma_scale_and_back(d: int, r: int)
    requires
        r > 0,
    ensures
        d >= 0 ==> d - slack(r) <= trunc_div(fx_mul(d, r) * ONE, r) <= d,
        d >= 0 ==> 0 <= trunc_div(fx_mul(d, r) * ONE, r),
        d <= 0 ==> d <= trunc_div(fx_mul(d, r) * ONE, r) <= d + slack(r),
        d <= 0 ==> trunc_div(fx_mul(d, r) * ONE, r) <= 0,
{
    if d >= 0 {
        lemma_scale_and_back_positive(d, r);
    } else {
        lemma_scale_and_back_positive(-d, r);
        assert((-d) * r == -(d * r)) by (nonlinear_arith);
        lemma_trunc_div_neg(d * r, ONE as int);
        let q: int = fx_mul(d, r);
        assert((-q) * ONE == -(q * ONE)) by (nonlinear_arith);
        lemma_trunc_div_neg(q * ONE, r);
    }
}

/// The same, for a scalar that is not negative.
proof fn lemma_scale_and_back_positive(d: int, r: int)
    requires
        r > 0,
        d >= 0,
    ensures
        d - slack(r) <= trunc_div(fx_mul(d, r) * ONE, r) <= d,
        0 <= trunc_div(fx_mul(d, r) * ONE, r),
{
    let one: int = ONE as int;
    let k: int = one / r;
    assert(0 <= d * r) by (nonlinear_arith)
        requires
            d >= 0,
            r > 0,
    ;
    let q: int = (d * r) / one;
    assert(q == fx_mul(d, r));
    assert(0 <= q && q * one <= d * r < q * one + one) by (nonlinear_arith)
        requires
            q == (d * r) / one,
            one == 1_000_000,
            0 <= d * r,
    ;
    let n: int = (q * one) / r;
    assert(n == trunc_div(q * one, r));
    assert(0 <= n && n * r <= q * one < n * r + r) by (nonlinear_arith)
        requires
            n == (q * one) / r,
            r > 0,
            0 <= q * one,
    ;
    assert(one < (k + 1) * r) by (nonlinear_arith)
        requires
            k == one / r,
            r > 0,
    ;
    assert(n <= d) by (nonlinear_arith)
        requires
            n * r <= d * r,
            r > 0,
    ;
    assert(n >= d - k - 1) by (nonlinear_arith)
        requires
            d * r < n * r + r + (k + 1) * r,
            r > 0,
    ;
}

/// A ray that starts at the centre of a sphere meets it at the distance of
/// the radius, whatever its direction, and the normal at the point it meets
/// points along the ray: before it is normalised, each of its components
/// differs from that of the direction by no more than `slack(radius)` units of
/// resolution.
pub proof fn lemma_ray_from_center(s: SphereView, ray: RayView)
    requires
        s.radius > 0,
        ray.origin == s.center,
    ensures
        s.hit_distance(ray) == Some(s.radius),
        s.surface_normal(ray.at(s.radius)).minus(ray.direction).within(slack(s.radius)),
{
    let one: int = ONE as int;
    let r: int = s.radius;
    let d: V3 = ray.direction;
    let oc: V3 = ray.origin.minus(s.center);
    assert(oc == V3::zero());
    assert(s.half_b(ray) == 0) by (nonlinear_arith)
        requires
            s.half_b(ray) == d.x * oc.x + d.y * oc.y + d.z * oc.z,
            oc.x == 0,
            oc.y == 0,
            oc.z == 0,
    ;
    assert(s.c_term(ray) == -(r * r)) by (nonlinear_arith)
        requires
            s.c_term(ray) == (oc.x * oc.x + oc.y * oc.y + oc.z * oc.z) - r * r,
            oc.x == 0,
            oc.y == 0,
            oc.z == 0,
    ;
    assert(s.discriminant(ray) == (one * r) * (one * r)) by (nonlinear_arith)
        requires
            s.discriminant(ray) == s.half_b(ray) * s.half_b(ray) - (one * one) * s.c_term(ray),
            s.half_b(ray) == 0,
            s.c_term(ray) == -(r * r),
    ;
    assert((one * r) * (one * r) >= 0 && one * r >= 0) by (nonlinear_arith)
        requires
            r > 0,
            one == 1_000_000,
    ;
    lemma_floor_sqrt_square(one * r);
    assert(one * r == r * one && -(one * r) == (-r) * one) by (nonlinear_arith);
    lemma_trunc_div_exact(r, one);
    lemma_trunc_div_exact(-r, one);
    assert(s.near_root(ray) == -r);
    assert(s.far_root(ray) == r);

    let p: V3 = ray.at(r);
    assert(p.minus(s.center) == d.scaled(r));
    lemma_scale_and_back(d.x, r);
    lemma_scale_and_back(d.y, r);
    lemma_scale_and_back(d.z, r);
    assert(one / r >= 0) by (nonlinear_arith)
        requires
            r > 0,
            one == 1_000_000,
    ;
}

/// The square of a scalar that has lost at most `sl` of its magnitude.
proof fn lemma_square_short(d: int, u: int, sl: int)
    by (nonlinear_arith)
    requires
        abs(d) <= ONE,
        sl >= 0,
        d >= 0 ==> 0 <= u <= d && d - sl <= u,
        d <= 0 ==> d <= u <= 0 && u <= d + sl,
    ensures
        u * u >= d * d - 2 * sl * ONE,
{
}

/// A product of two scalars of one sign is not negative, and is positive
/// where the first of them is not zero and the second is zero only with it.
proof fn lemma_product_sign(n: int, d: int)
    by (nonlinear_arith)
    requires
        d >= 0 ==> n >= 0,
        d <= 0 ==> n <= 0,
    ensures
        n * d >= 0,
        n != 0 ==> n * d > 0,
{
}

/// One term of the dot product of a normalised vector with the vector `d`
/// that it comes from, in magnitudes: `a` is that of the normalised
/// component, `b` that of the component of `d`, and `v` that of the component
/// before it was normalised, which is short of `b` by at most `sl`.
proof fn lemma_dot_component(a: int, b: int, v: int, len: int, sl: int, k: int)
    requires
        0 <= a,
        0 <= b <= ONE,
        0 <= v,
        b - sl <= v,
        0 <= sl,
        0 < len,
        0 < k,
        k * v < (a + 1) * len,
    ensures
        (a * b + b) * len >= k * (b * b - sl * ONE),
{
    assert((a * b + b) * len == ((a + 1) * len) * b) by (nonlinear_arith);
    assert(((a + 1) * len) * b >= (k * v) * b) by (nonlinear_arith)
        requires
            k * v < (a + 1) * len,
            0 <= b,
    ;
    assert(v * b >= b * b - sl * ONE) by (nonlinear_arith)
        requires
            0 <= b <= ONE,
            b - sl <= v,
            0 <= sl,
    ;
    assert((k * v) * b >= k * (b * b - sl * ONE)) by (nonlinear_arith)
        requires
            v * b >= b * b - sl * ONE,
            0 < k,
    ;
}

/// Twice the dot product of two vectors is at most the sum of the squares of
/// their lengths.
proof fn lemma_dot_below_squares(n: V3, d: V3)
    ensures
        2 * n.dot(d) <= n.norm_sq() + d.norm_sq(),
{
    lemma_product_below_squares(n.x, d.x);
    lemma_product_below_squares(n.y, d.y);
    lemma_product_below_squares(n.z, d.z);
}

/// Twice the product of two scalars is at most the sum of their squares.
proof fn lemma_product_below_squares(a: int, b: int)
    by (nonlinear_arith)
    ensures
        2 * (a * b) <= a * a + b * b,
{
    assert((a - b) * (a - b) >= 0);
    assert((a - b) * (a - b) == a * a - 2 * (a * b) + b * b);
}

/// One component of the cross product of a normalised vector `n` with the
/// vector `d`, where `n` comes from a vector `u` that differs from `d` by at
/// most `sl` along each axis: `len` is the length of `u` once stretched.
proof fn lemma_cross_component(
    ni: int,
    nj: int,
    di: int,
    dj: int,
    ui: int,
    uj: int,
    len: int,
    sl: int,
)
    requires
        abs(di) <= ONE,
        abs(dj) <= ONE,
        abs(di - ui) <= sl,
        abs(dj - uj) <= sl,
        abs((STRETCH * ONE) * ui - ni * len) <= len,
        abs((STRETCH * ONE) * uj - nj * len) <= len,
        0 < len,
        STRETCH * ONE <= 2 * len,
    ensures
        abs(ni * dj - nj * di) <= ONE * (4 * sl + 2),
{
    let one: int = ONE as int;
    let k: int = STRETCH * ONE;
    let (ei, ej) = (di - ui, dj - uj);
    let (ri, rj) = (k * ui - ni * len, k * uj - nj * len);
    let a: int = ej * di - ei * dj;
    let b: int = ri * dj - rj * di;
    let c: int = ni * dj - nj * di;
    lemma_mul_bound(ej, di, sl, one);
    lemma_mul_bound(ei, dj, sl, one);
    lemma_mul_bound(ri, dj, len, one);
    lemma_mul_bound(rj, di, len, one);
    // c * len == k * a - b, one product at a time
    let (pi, pj) = (ni * len, nj * len);
    assert(a == ui * dj - uj * di) by (nonlinear_arith)
        requires
            a == (dj - uj) * di - (di - ui) * dj,
    ;
    assert(c * len == pi * dj - pj * di) by (nonlinear_arith)
        requires
            c == ni * dj - nj * di,
            pi == ni * len,
            pj == nj * len,
    ;
    assert(pi * dj == (k * ui) * dj - ri * dj) by (nonlinear_arith)
        requires
            pi == k * ui - ri,
    ;
    assert(pj * di == (k * uj) * di - rj * di) by (nonlinear_arith)
        requires
            pj == k * uj - rj,
    ;
    assert(k * a == (k * ui) * dj - (k * uj) * di) by (nonlinear_arith)
        requires
            a == ui * dj - uj * di,
    ;
    assert(c * len == k * a - b);
    lemma_mul_bound(k, a, k, 2 * (sl * one));
    assert(k * (2 * (sl * one)) <= (2 * len) * (2 * (sl * one))) by (nonlinear_arith)
        requires
            k <= 2 * len,
            0 <= sl * one,
    ;
    let m: int = one * (4 * sl + 2);
    assert((2 * len) * (2 * (sl * one)) + 2 * (len * one) == len * m) by (nonlinear_arith)
        requires
            m == one * (4 * sl + 2),
    ;
    lemma_abs_mul(c, len);
    assert(abs(c) <= m) by (nonlinear_arith)
        requires
            abs(c) * len <= len * m,
            len > 0,
    ;
}

/// Where a ray from the centre of a sphere meets it, the unit normal is the
/// direction of the ray, up to rounding. It has the length one. Its dot
/// product with the direction, which is `ONE * ONE` for equal unit vectors,
/// is short of that by no more than `ONE * (3 * slack(radius) + 8)`. And no
/// component of the cross product of the two, which is zero for parallel
/// vectors and as much as `ONE * ONE` for perpendicular ones, exceeds
/// `ONE * (4 * slack(radius) + 2)`.
///
/// This holds for a radius of more than ten units of resolution. Dividing by
/// a smaller one rounds so coarsely that little is left of the direction;
/// with a radius of a single unit the point found is the centre itself, and
/// the normal the zero vector.
pub proof fn lemma_normal_along_ray(s: SphereView, ray: RayView)
    requires
        s.radius > 10,
        ray.origin == s.center,
        ray.direction.within(ONE as int),
        ray.direction.is_unit(),
    ensures
        ({
            let n = PrimitiveView::Sphere(s).unit_normal(ray.at(s.radius));
            &&& n.is_unit()
            &&& 0 < ONE * (ONE - 3 * slack(s.radius) - 8) <= n.dot(ray.direction)
            &&& n.dot(ray.direction) <= ONE * ONE + 1000
            &&& n.cross(ray.direction).within(ONE * (4 * slack(s.radius) + 2))
        }),
{
    let one: int = ONE as int;
    let k: int = STRETCH as int;
    let r: int = s.radius;
    let d: V3 = ray.direction;
    let p: V3 = ray.at(r);
    let u: V3 = s.surface_normal(p);
    let sl: int = slack(r);
    assert(p.minus(s.center) == d.scaled(r));
    lemma_scale_and_back(d.x, r);
    lemma_scale_and_back(d.y, r);
    lemma_scale_and_back(d.z, r);
    assert(1 <= sl <= 100_000) by (nonlinear_arith)
        requires
            sl == one / r + 1,
            r > 10,
            one == 1_000_000,
    ;
    // the normal is long enough before it is normalised
    lemma_square_short(d.x, u.x, sl);
    lemma_square_short(d.y, u.y, sl);
    lemma_square_short(d.z, u.z, sl);
    assert(2 * sl * one <= 200_000_000_000) by (nonlinear_arith)
        requires
            0 <= sl <= 100_000,
            one == 1_000_000,
    ;
    assert(u.norm_sq() >= 250_000_000_000);
    assert(u != V3::zero());
    lemma_normalized_is_unit(u);
    // so its length, once stretched, is at least half of what it should be
    let w: V3 = u.stretched();
    let len: int = floor_sqrt(w.norm_sq());
    let half: int = 2_147_483_648_000_000;
    assert(w.norm_sq() >= half * half) by (nonlinear_arith)
        requires
            w.norm_sq() == (u.x * k) * (u.x * k) + (u.y * k) * (u.y * k) + (u.z * k) * (u.z * k),
            u.x * u.x + u.y * u.y + u.z * u.z >= 250_000_000_000,
            k == 0x1_0000_0000,
            half == 2_147_483_648_000_000,
    ;
    lemma_floor_sqrt(w.norm_sq());
    assert(len >= half) by (nonlinear_arith)
        requires
            w.norm_sq() < (len + 1) * (len + 1),
            w.norm_sq() >= half * half,
            len >= 0,
            half > 0,
    ;
    let n: V3 = u.normalized();
    assert(n == w.divided(len));
    lemma_trunc_div_remainder(w.x * one, len);
    lemma_trunc_div_remainder(w.y * one, len);
    lemma_trunc_div_remainder(w.z * one, len);
    assert(w.x * one == (k * one) * u.x && w.y * one == (k * one) * u.y && w.z * one == (k * one)
        * u.z) by (nonlinear_arith)
        requires
            w.x == u.x * k,
            w.y == u.y * k,
            w.z == u.z * k,
    ;
    assert(u.x >= 0 ==> w.x * one >= 0);
    assert(u.x <= 0 ==> w.x * one <= 0);
    assert(u.y >= 0 ==> w.y * one >= 0);
    assert(u.y <= 0 ==> w.y * one <= 0);
    assert(u.z >= 0 ==> w.z * one >= 0);
    assert(u.z <= 0 ==> w.z * one <= 0);
    // parallel
    lemma_cross_component(n.y, n.z, d.y, d.z, u.y, u.z, len, sl);
    lemma_cross_component(n.z, n.x, d.z, d.x, u.z, u.x, len, sl);
    lemma_cross_component(n.x, n.y, d.x, d.y, u.x, u.y, len, sl);
    // and to the same side: each term of the dot product is one of magnitudes
    lemma_product_sign(n.x, d.x);
    lemma_product_sign(n.y, d.y);
    lemma_product_sign(n.z, d.z);
    lemma_abs_mul(n.x, d.x);
    lemma_abs_mul(n.y, d.y);
    lemma_abs_mul(n.z, d.z);
    let (ax, ay, az) = (abs(n.x), abs(n.y), abs(n.z));
    let (bx, by, bz) = (abs(d.x), abs(d.y), abs(d.z));
    let kone: int = 4_294_967_296_000_000;
    assert(kone == k * one);
    lemma_trunc_div_undone(w.x * one, len);
    lemma_trunc_div_undone(w.y * one, len);
    lemma_trunc_div_undone(w.z * one, len);
    lemma_abs_mul(kone, u.x);
    lemma_abs_mul(kone, u.y);
    lemma_abs_mul(kone, u.z);
    lemma_dot_component(ax, bx, abs(u.x), len, sl, kone);
    lemma_dot_component(ay, by, abs(u.y), len, sl, kone);
    lemma_dot_component(az, bz, abs(u.z), len, sl, kone);
    let t: int = n.dot(d);
    assert(t == ax * bx + ay * by + az * bz);
    let bs: int = bx + by + bz;
    let x: int = t + 3 * one;
    assert((bx * bx - sl * one) + (by * by - sl * one) + (bz * bz - sl * one) == d.norm_sq() - 3
        * (sl * one)) by (nonlinear_arith)
        requires
            d.norm_sq() == d.x * d.x + d.y * d.y + d.z * d.z,
            bx == d.x || bx == -d.x,
            by == d.y || by == -d.y,
            bz == d.z || bz == -d.z,
    ;
    assert((t + bs) * len >= kone * (d.norm_sq() - 3 * (sl * one))) by (nonlinear_arith)
        requires
            t == ax * bx + ay * by + az * bz,
            bs == bx + by + bz,
            (ax * bx + bx) * len >= kone * (bx * bx - sl * one),
            (ay * by + by) * len >= kone * (by * by - sl * one),
            (az * bz + bz) * len >= kone * (bz * bz - sl * one),
            (bx * bx - sl * one) + (by * by - sl * one) + (bz * bz - sl * one) == d.norm_sq() - 3
                * (sl * one),
    ;
    // the stretched length is below `STRETCH * (ONE + 1)`
    lemma_square_bound(u.x, bx);
    lemma_square_bound(u.y, by);
    lemma_square_bound(u.z, bz);
    assert(bx * bx == d.x * d.x && by * by == d.y * d.y && bz * bz == d.z * d.z)
        by (nonlinear_arith)
        requires
            bx == d.x || bx == -d.x,
            by == d.y || by == -d.y,
            bz == d.z || bz == -d.z,
    ;
    let top: int = 4_294_971_590_967_296;
    assert(w.norm_sq() < top * top) by (nonlinear_arith)
        requires
            w.norm_sq() == (u.x * k) * (u.x * k) + (u.y * k) * (u.y * k) + (u.z * k) * (u.z * k),
            u.x * u.x + u.y * u.y + u.z * u.z <= 1_000_000_001_000,
            k == 0x1_0000_0000,
            top == 4_294_971_590_967_296,
    ;
    assert(len < top) by (nonlinear_arith)
        requires
            len * len <= w.norm_sq(),
            w.norm_sq() < top * top,
            0 <= len,
            0 < top,
    ;
    assert(x >= 0 && x * top >= (t + bs) * len) by (nonlinear_arith)
        requires
            x == t + 3 * one,
            0 <= t,
            0 <= bs <= 3 * one,
            0 < len < top,
            one == 1_000_000,
    ;
    lemma_dot_below_squares(n, d);
}

/// The unit normal of a sphere points away from the centre, at any point
/// that is far enough from the centre for the division by the radius to
/// leave something of it: it has the length one, and its dot product with the
/// vector from the centre to the point is positive. Nearer to the centre than
/// that, and at the centre itself, the normal is the zero vector.
pub proof fn lemma_normal_away_from_center(s: SphereView, point: V3)
    requires
        s.radius > 0,
        ({
            let v = point.minus(s.center);
            abs(v.x) * ONE >= s.radius || abs(v.y) * ONE >= s.radius || abs(v.z) * ONE >= s.radius
        }),
    ensures
        ({
            let n = PrimitiveView::Sphere(s).unit_normal(point);
            &&& n.is_unit()
            &&& n.dot(point.minus(s.center)) > 0
        }),
{
    let one: int = ONE as int;
    let r: int = s.radius;
    let v: V3 = point.minus(s.center);
    let u: V3 = s.surface_normal(point);
    lemma_trunc_div_remainder(v.x * one, r);
    lemma_trunc_div_remainder(v.y * one, r);
    lemma_trunc_div_remainder(v.z * one, r);
    lemma_trunc_div_undone(v.x * one, r);
    lemma_trunc_div_undone(v.y * one, r);
    lemma_trunc_div_undone(v.z * one, r);
    lemma_abs_mul(v.x, one);
    lemma_abs_mul(v.y, one);
    lemma_abs_mul(v.z, one);
    assert(abs(u.x) >= 1 || abs(u.y) >= 1 || abs(u.z) >= 1) by (nonlinear_arith)
        requires
            abs(v.x) * one < (abs(u.x) + 1) * r,
            abs(v.y) * one < (abs(u.y) + 1) * r,
            abs(v.z) * one < (abs(u.z) + 1) * r,
            abs(v.x) * one >= r || abs(v.y) * one >= r || abs(v.z) * one >= r,
            r > 0,
    ;
    assert(u != V3::zero());
    lemma_normalized_is_unit(u);
    lemma_stretched_is_long(u);
    let w: V3 = u.stretched();
    let len: int = floor_sqrt(w.norm_sq());
    let n: V3 = u.normalized();
    assert(n == w.divided(len));
    assert((u.x >= 0 ==> w.x >= 0) && (u.x <= 0 ==> w.x <= 0) && (u.y >= 0 ==> w.y >= 0) && (u.y
        <= 0 ==> w.y <= 0) && (u.z >= 0 ==> w.z >= 0) && (u.z <= 0 ==> w.z <= 0))
        by (nonlinear_arith)
        requires
            w == u || (w.x == u.x * STRETCH && w.y == u.y * STRETCH && w.z == u.z * STRETCH),
    ;
    lemma_trunc_div_remainder(w.x * one, len);
    lemma_trunc_div_remainder(w.y * one, len);
    lemma_trunc_div_remainder(w.z * one, len);
    lemma_product_sign(n.x, v.x);
    lemma_product_sign(n.y, v.y);
    lemma_product_sign(n.z, v.z);
}

/// A ray that starts on a sphere or outside it, and does not run toward its
/// centre, does not meet it. A sphere thus casts no shadow on its own lit
/// side wherever the origin of the shadow ray has come to lie on it or
/// outside it.
pub proof fn lemma_ray_leaving_misses(s: SphereView, ray: RayView)
    requires
        s.c_term(ray) >= 0,
        s.half_b(ray) >= 0,
    ensures
        s.hit_distance(ray) is None,
{
    let hb: int = s.half_b(ray);
    let disc: int = s.discriminant(ray);
    if disc >= 0 {
        lemma_floor_sqrt(disc);
        let sq: int = floor_sqrt(disc);
        assert(disc <= hb * hb) by (nonlinear_arith)
            requires
                disc == hb * hb - (ONE * ONE) * s.c_term(ray),
                s.c_term(ray) >= 0,
        ;
        assert(sq <= hb) by (nonlinear_arith)
            requires
                sq * sq <= hb * hb,
                0 <= sq,
                0 <= hb,
        ;
        lemma_trunc_div_remainder(-hb + sq, ONE as int);
        lemma_trunc_div_remainder(-hb - sq, ONE as int);
    }
}

/// A sphere is met no farther away than six times the greatest distance,
/// along an axis, between the ray's origin and the centre, plus the radius.
pub proof fn lemma_sphere_hit_bound(s: SphereView, ray: RayView, m: int)
    requires
        s.wf(),
        ray.direction.within(ONE as int),
        ray.origin.within(m),
    ensures
        s.hit_distance(ray) matches Some(t) ==> 0 < t <= 6 * (m + SCENE_MAX) + s.radius,
{
    if s.hit_distance(ray) is Some {
        let one: int = ONE as int;
        let w: int = m + SCENE_MAX;
        let r: int = s.radius;
        let oc: V3 = ray.origin.minus(s.center);
        let hb: int = s.half_b(ray);
        let disc: int = s.discriminant(ray);
        assert(oc.within(w));
        lemma_dot_bound(ray.direction, oc, one, w);
        let h: int = if hb < 0 {
            -hb
        } else {
            hb
        };
        assert(h <= 3 * (one * w));
        lemma_square_bound(oc.x, w);
        lemma_square_bound(oc.y, w);
        lemma_square_bound(oc.z, w);
        assert(s.c_term(ray) >= -(r * r));
        lemma_floor_sqrt(disc);
        let sq: int = floor_sqrt(disc);
        assert(disc <= (h + one * r) * (h + one * r)) by (nonlinear_arith)
            requires
                disc == hb * hb - (one * one) * s.c_term(ray),
                s.c_term(ray) >= -(r * r),
                h == hb || h == -hb,
                h >= 0,
                r > 0,
                one == 1_000_000,
        ;
        assert(sq <= h + one * r) by (nonlinear_arith)
            requires
                0 <= sq,
                sq * sq <= disc,
                disc <= (h + one * r) * (h + one * r),
                h >= 0,
                r > 0,
                one == 1_000_000,
        ;
        assert(3 * (one * w) == (3 * w) * one && one * r == r * one) by (nonlinear_arith);
        assert((6 * w + r) * one == 2 * ((3 * w) * one) + r * one) by (nonlinear_arith);
        lemma_trunc_div_bound(-hb + sq, one, 6 * w + r);
        lemma_roots_ordered(s, ray);
    }
}

impl Object for Sphere {
    open spec fn model(&self) -> PrimitiveView {
        PrimitiveView::Sphere(self@)
    }

    fn get_material(&self) -> (m: &Material) {
        &self.material
    }

    fn intersected_by(&self, ray: &Ray, t_closest: &mut i64) -> (hit: Option<Vec3>) {
        let d: &Vec3 = ray.direction();
        let o: &Vec3 = ray.origin();
        let oc: Vec3 = o.minus(&self.center);
        let ghost span: int = 16_000_000_000;
        let ghost one: int = ONE as int;
        proof {
            assert(oc@.within(span));
            lemma_dot_bound(d@, oc@, one, span);
            lemma_dot_bound(oc@, oc@, span, span);
            assert(one * span == 16_000_000_000_000_000) by (nonlinear_arith)
                requires
                    one == 1_000_000,
                    span == 16_000_000_000,
            ;
            assert(span * span == 256_000_000_000_000_000_000) by (nonlinear_arith)
                requires
                    span == 16_000_000_000,
            ;
            lemma_square_bound(self.radius as int, SCENE_MAX as int);
            assert(SCENE_MAX * SCENE_MAX == 1_000_000_000_000_000_000) by (nonlinear_arith);
        }
        let half_b: i128 = d.dot(&oc);
        let c_term: i128 = oc.dot(&oc) - (self.radius as i128) * (self.radius as i128);
        proof {
            lemma_square_bound(half_b as int, 48_000_000_000_000_000);
            assert(48_000_000_000_000_000int * 48_000_000_000_000_000
                == 2_304_000_000_000_000_000_000_000_000_000_000) by (nonlinear_arith);
            assert(one * one == 1_000_000_000_000) by (nonlinear_arith)
                requires
                    one == 1_000_000,
            ;
            lemma_mul_bound(
                one * one,
                c_term as int,
                1_000_000_000_000,
                769_000_000_000_000_000_000,
            );
            assert(1_000_000_000_000int * 769_000_000_000_000_000_000
                == 769_000_000_000_000_000_000_000_000_000_000) by (nonlinear_arith);
        }
        let scale: i128 = (ONE as i128) * (ONE as i128);
        let discriminant: i128 = half_b * half_b - scale * c_term;
        assert(discriminant == self@.discriminant(ray@));
        if discriminant < 0 {
            return None;
        }
        let sq: i128 = isqrt(discriminant as u128) as i128;
        proof {
            lemma_roots_ordered(self@, ray@);
            assert(sq < 64_000_000_000_000_000) by (nonlinear_arith)
                requires
                    0 <= sq,
                    sq * sq <= discriminant,
                    discriminant <= 3_073_000_000_000_000_000_000_000_000_000_000,
            ;
            lemma_trunc_div_shrinks(-half_b - sq, one);
            lemma_trunc_div_shrinks(-half_b + sq, one);
        }
        let mut root: i128 = (-half_b - sq) / (ONE as i128);
        if root <= 0 || root >= *t_closest as i128 {
            let far: i128 = (-half_b + sq) / (ONE as i128);
            if far <= 0 || far >= *t_closest as i128 {
                return None;
            }
            root = far;
        }
        *t_closest = root as i64;
        Some(ray.at(root as i64))
    }

    fn normal_ugly(&self, point: Vec3) -> (n: Vec3) {
        assert(self.model().wf());
        let pc: Vec3 = point.minus(&self.center);
        proof {
            let span: int = 16_000_000_000;
            lemma_mul_bound(pc.x as int, ONE as int, span, ONE as int);
            lemma_mul_bound(pc.y as int, ONE as int, span, ONE as int);
            lemma_mul_bound(pc.z as int, ONE as int, span, ONE as int);
            assert(span * ONE == 16_000_000_000_000_000) by (nonlinear_arith)
                requires
                    span == 16_000_000_000,
            ;
            lemma_trunc_div_shrinks(pc.x * ONE, self.radius as int);
            lemma_trunc_div_shrinks(pc.y * ONE, self.radius as int);
            lemma_trunc_div_shrinks(pc.z * ONE, self.radius as int);
        }
        pc.divided(self.radius)
    }
}

} // verus!
