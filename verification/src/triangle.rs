//! Triangles, and where a ray meets one.
//!
//! The ray is first cut with the plane of the triangle. The point found is
//! then tested against the triangle in two dimensions, after the axis along
//! which the plane's normal is longest has been dropped from the point and
//! from the three corners: that projection never flattens the triangle.

use vstd::prelude::*;
use crate::fixed::{
    abs, fx_mul, lemma_abs_mul, lemma_mul_bound, lemma_trunc_div_bound, lemma_trunc_div_shrinks,
    lemma_trunc_div_undone, trunc_div, DISTANCE_MAX, ONE, ORIGIN_MAX, SCENE_MAX,
};
use crate::geometry::{lemma_cross_bound, lemma_dot_bound, AxisOrder, Vec2, Vec3, V2, V3};
use crate::material::{Material, MaterialView};
use crate::objects::{Object, PrimitiveView};
use crate::polygon::{
    encloses_origin, lemma_inside_any_order, lemma_inside_axes_swapped, lemma_inside_is_between,
    off_the_sides, origin_inside,
};
use crate::rays::{Ray, RayView};

verus! {

/// The mathematical model of a `Triangle`: its corners `a`, `b` and `c` in
/// their order, and its material.
pub struct TriangleView {
    pub a: V3,
    pub b: V3,
    pub c: V3,
    pub material: MaterialView,
}

/// A triangle, given by its three corners. Their order fixes the side to
/// which the normal points.
#[derive(Clone, Copy, Debug, PartialEq, Eq)]
pub struct Triangle {
    pub vertices: [Vec3; 3],
    pub material: Material,
}

impl View for Triangle {
    type V = TriangleView;

    open spec fn view(&self) -> TriangleView {
        TriangleView {
            a: self.vertices[0]@,
            b: self.vertices[1]@,
            c: self.vertices[2]@,
            material: self.material@,
        }
    }
}

impl TriangleView {
    /// The three corners are within `SCENE_MAX` and the material is valid.
    pub open spec fn wf(self) -> bool {
        &&& self.a.within(SCENE_MAX as int)
        &&& self.b.within(SCENE_MAX as int)
        &&& self.c.within(SCENE_MAX as int)
        &&& self.material.wf()
    }

    /// The normal of the plane of the triangle: the cross product of the
    /// sides `a b` and `b c`, exact and of no particular length. It is zero
    /// where the three corners lie on one line.
    pub open spec fn raw_normal(self) -> V3 {
        self.b.minus(self.a).cross(self.c.minus(self.b))
    }

    /// The dot product of the normal with the ray's direction: zero where the
    /// ray runs parallel to the plane.
    pub open spec fn slope(self, ray: RayView) -> int {
        self.raw_normal().dot(ray.direction)
    }

    /// The dot product of the normal with the vector from the ray's origin to
    /// the corner `a`: the height of the plane over the origin of the ray.
    pub open spec fn height(self, ray: RayView) -> int {
        self.raw_normal().dot(self.a.minus(ray.origin))
    }

    /// The distance at which the ray meets the plane of the triangle, where
    /// it is not parallel to it: `height / slope`, as a fixed-point scalar.
    pub open spec fn plane_distance(self, ray: RayView) -> int
        recommends
            self.slope(ray) != 0,
    {
        if self.slope(ray) > 0 {
            trunc_div(self.height(ray) * ONE, self.slope(ray))
        } else {
            trunc_div(-(self.height(ray) * ONE), -self.slope(ray))
        }
    }

    /// The axis that is dropped to project the triangle to the plane.
    pub open spec fn dropped_axis(self) -> int {
        self.raw_normal().dominant_axis()
    }

    /// The projection of `point` lies inside the projection of the triangle.
    pub open spec fn covers(self, point: V3) -> bool {
        let axis = self.dropped_axis();
        let p = point.drop_axis(axis);
        origin_inside(
            self.a.drop_axis(axis).minus(p),
            self.b.drop_axis(axis).minus(p),
            self.c.drop_axis(axis).minus(p),
        )
    }

    /// The distance at which the ray meets the triangle: that at which it
    /// meets the plane, where the ray is not parallel to the plane, the
    /// distance is positive and the point found lies inside the triangle.
    pub open spec fn hit_distance(self, ray: RayView) -> Option<int> {
        if self.slope(ray) != 0 && self.plane_distance(ray) > 0 && self.covers(
            ray.at(self.plane_distance(ray)),
        ) {
            Some(self.plane_distance(ray))
        } else {
            None
        }
    }

    /// The same triangle in the frame of reference whose axes are the old
    /// ones in the order `order`.
    pub open spec fn reordered(self, order: AxisOrder) -> TriangleView {
        TriangleView {
            a: self.a.reordered(order),
            b: self.b.reordered(order),
            c: self.c.reordered(order),
            material: self.material,
        }
    }

    /// The projection of `point` lies on none of the three lines that carry
    /// the sides of the projected triangle.
    pub open spec fn clear_of_sides(self, point: V3) -> bool {
        let axis = self.dropped_axis();
        let p = point.drop_axis(axis);
        off_the_sides(
            self.a.drop_axis(axis).minus(p),
            self.b.drop_axis(axis).minus(p),
            self.c.drop_axis(axis).minus(p),
        )
    }

    /// The normal of the plane, the same at every point.
    pub open spec fn surface_normal(self, point: V3) -> V3 {
        self.raw_normal()
    }
}

/// The normal of a valid triangle fits in a `Vec3`.
pub proof fn lemma_raw_normal_bound(t: TriangleView)
    requires
        t.wf(),
    ensures
        t.raw_normal().within(8_000_000_000_000_000_000),
{
    let side: int = 2 * SCENE_MAX;
    lemma_cross_bound(t.b.minus(t.a), t.c.minus(t.b), side, side);
    assert(side * side == 4_000_000_000_000_000_000) by (nonlinear_arith)
        requires
            side == 2_000_000_000,
    ;
}

/// In a frame of reference with its axes in another order, the cross product
/// of two vectors is the same vector or its opposite, and their dot product is
/// the same number.
pub proof fn lemma_products_reordered(u: V3, v: V3, order: AxisOrder)
    ensures
        u.reordered(order).dot(v.reordered(order)) == u.dot(v),
        u.reordered(order).cross(v.reordered(order)) == u.cross(v).reordered(order)
            || u.reordered(order).cross(v.reordered(order)) == u.cross(v).negated().reordered(
            order,
        ),
        (order is Xyz || order is Yzx || order is Zxy) ==> u.reordered(order).cross(
            v.reordered(order),
        ) == u.cross(v).reordered(order),
        (order is Xzy || order is Yxz || order is Zyx) ==> u.reordered(order).cross(
            v.reordered(order),
        ) == u.cross(v).negated().reordered(order),
{
}

/// Whether a ray meets a triangle, and where, does not depend on the order in
/// which the coordinate axes are named: in a frame of reference with the same
/// axes in another order, the same ray meets the same triangle at the same
/// distance or not at all.
///
/// This holds where the normal of the triangle is strictly longest along one
/// axis, so that every frame drops the same axis, and where the point at
/// which the ray meets the plane is projected onto none of the lines that
/// carry the sides of the triangle. It holds nowhere else: the point found is
/// rounded and may lie a hair off the plane, so where the normal is as long
/// along two axes and two frames drop different ones, its two projections can
/// fall on different sides of a side; and a point on a side is counted as
/// inside or outside by the direction of the half-line that is followed.
pub proof fn lemma_hit_axis_order(t: TriangleView, ray: RayView, order: AxisOrder)
    requires
        t.raw_normal().has_dominant_axis(),
        t.slope(ray) != 0 && t.plane_distance(ray) > 0 ==> t.clear_of_sides(
            ray.at(t.plane_distance(ray)),
        ),
    ensures
        t.reordered(order).hit_distance(ray.reordered(order)) == t.hit_distance(ray),
{
    let t2: TriangleView = t.reordered(order);
    let ray2: RayView = ray.reordered(order);
    let n: V3 = t.raw_normal();
    let n2: V3 = t2.raw_normal();
    assert(t2.b.minus(t2.a) == t.b.minus(t.a).reordered(order));
    assert(t2.c.minus(t2.b) == t.c.minus(t.b).reordered(order));
    lemma_products_reordered(t.b.minus(t.a), t.c.minus(t.b), order);
    assert(t2.a.minus(ray2.origin) == t.a.minus(ray.origin).reordered(order));
    if n2 == n.reordered(order) {
        lemma_products_reordered(n, ray.direction, order);
        lemma_products_reordered(n, t.a.minus(ray.origin), order);
        assert(t2.slope(ray2) == t.slope(ray));
        assert(t2.height(ray2) == t.height(ray));
    } else {
        assert(n2 == n.negated().reordered(order));
        lemma_products_reordered(n.negated(), ray.direction, order);
        lemma_products_reordered(n.negated(), t.a.minus(ray.origin), order);
        assert(n.negated().dot(ray.direction) == -n.dot(ray.direction)) by (nonlinear_arith)
            requires
                n.negated().dot(ray.direction) == (-n.x) * ray.direction.x + (-n.y)
                    * ray.direction.y + (-n.z) * ray.direction.z,
                n.dot(ray.direction) == n.x * ray.direction.x + n.y * ray.direction.y + n.z
                    * ray.direction.z,
        ;
        let w: V3 = t.a.minus(ray.origin);
        assert(n.negated().dot(w) == -n.dot(w)) by (nonlinear_arith)
            requires
                n.negated().dot(w) == (-n.x) * w.x + (-n.y) * w.y + (-n.z) * w.z,
                n.dot(w) == n.x * w.x + n.y * w.y + n.z * w.z,
        ;
        assert(t2.slope(ray2) == -t.slope(ray));
        assert(t2.height(ray2) == -t.height(ray));
        assert((-t.height(ray)) * ONE == -(t.height(ray) * ONE)) by (nonlinear_arith);
    }
    if t.slope(ray) != 0 {
        assert(t2.plane_distance(ray2) == t.plane_distance(ray));
        let d: int = t.plane_distance(ray);
        if d > 0 {
            let p: V3 = ray.at(d);
            assert(ray2.at(d) == p.reordered(order));
            lemma_covers_reordered(t, p, order);
        }
    }
}

/// In a frame of reference with its axes in another order, the projection of
/// a point lies inside the projection of a triangle exactly when it did
/// before, where the normal is strictly longest along one axis and the
/// projected point lies on none of the lines that carry the sides.
pub proof fn lemma_covers_reordered(t: TriangleView, p: V3, order: AxisOrder)
    requires
        t.raw_normal().has_dominant_axis(),
        t.clear_of_sides(p),
    ensures
        t.reordered(order).covers(p.reordered(order)) == t.covers(p),
{
    let t2: TriangleView = t.reordered(order);
    let n: V3 = t.raw_normal();
    let n2: V3 = t2.raw_normal();
    assert(t2.b.minus(t2.a) == t.b.minus(t.a).reordered(order));
    assert(t2.c.minus(t2.b) == t.c.minus(t.b).reordered(order));
    lemma_products_reordered(t.b.minus(t.a), t.c.minus(t.b), order);
    let k: int = t.dropped_axis();
    let k2: int = t2.dropped_axis();
    let a: V2 = t.a.drop_axis(k).minus(p.drop_axis(k));
    let b: V2 = t.b.drop_axis(k).minus(p.drop_axis(k));
    let c: V2 = t.c.drop_axis(k).minus(p.drop_axis(k));
    let a2: V2 = t2.a.drop_axis(k2).minus(p.reordered(order).drop_axis(k2));
    let b2: V2 = t2.b.drop_axis(k2).minus(p.reordered(order).drop_axis(k2));
    let c2: V2 = t2.c.drop_axis(k2).minus(p.reordered(order).drop_axis(k2));
    assert((a2 == a && b2 == b && c2 == c) || (a2 == a.swapped() && b2 == b.swapped() && c2
        == c.swapped()));
    if a2 != a || b2 != b || c2 != c {
        lemma_inside_axes_swapped(a, b, c);
    }
}

/// How far along a ray its meeting with a plane can lie, when two of the
/// three coordinates of the point met are known to be near the origin of the
/// ray.
///
/// `nk`, `ni`, `nj` are the components of the plane's normal, the first of
/// them the longest; `dk`, `di`, `dj` those of the ray's direction; `wk`,
/// `wi`, `wj` those of the vector from the ray's origin to a point of the
/// plane, none beyond `m`; `t` is the distance at which the ray meets the
/// plane. If the ray has moved by no more than `m` along the axes `i` and
/// `j`, it has moved by no more than `5 * m + 2` along the axis `k`.
proof fn lemma_plane_reach(
    nk: int,
    ni: int,
    nj: int,
    dk: int,
    di: int,
    dj: int,
    wk: int,
    wi: int,
    wj: int,
    t: int,
    m: int,
)
    requires
        abs(ni) <= abs(nk),
        abs(nj) <= abs(nk),
        nk * dk + ni * di + nj * dj != 0,
        abs(wk) <= m,
        abs(wi) <= m,
        abs(wj) <= m,
        t > 0,
        ({
            let vd = nk * dk + ni * di + nj * dj;
            let vo = nk * wk + ni * wi + nj * wj;
            t == if vd > 0 {
                trunc_div(vo * ONE, vd)
            } else {
                trunc_div(-(vo * ONE), -vd)
            }
        }),
        abs(fx_mul(di, t)) <= m,
        abs(fx_mul(dj, t)) <= m,
    ensures
        abs(dk) * t <= ONE * (5 * m + 2),
        abs(di) * t <= ONE * (m + 1),
        abs(dj) * t <= ONE * (m + 1),
{
    let one: int = ONE as int;
    let vd: int = nk * dk + ni * di + nj * dj;
    let vo: int = nk * wk + ni * wi + nj * wj;
    let n: int = abs(nk);
    assert(n > 0) by (nonlinear_arith)
        requires
            n == abs(nk),
            abs(ni) <= n,
            abs(nj) <= n,
            nk * dk + ni * di + nj * dj != 0,
    ;
    // the two known coordinates
    let it: int = abs(di) * t;
    let jt: int = abs(dj) * t;
    let kt: int = abs(dk) * t;
    lemma_abs_mul(di, t);
    lemma_abs_mul(dj, t);
    lemma_trunc_div_undone(di * t, one);
    lemma_trunc_div_undone(dj * t, one);
    assert(it <= one * (m + 1) && jt <= one * (m + 1)) by (nonlinear_arith)
        requires
            it < (abs(fx_mul(di, t)) + 1) * one,
            jt < (abs(fx_mul(dj, t)) + 1) * one,
            abs(fx_mul(di, t)) <= m,
            abs(fx_mul(dj, t)) <= m,
            one > 0,
    ;
    // the distance times the slope does not exceed the height
    let d: int = abs(vd);
    let a: int = abs(vo) * one;
    lemma_abs_mul(vo, one);
    if vd > 0 {
        lemma_trunc_div_undone(vo * one, vd);
    } else {
        lemma_trunc_div_undone(-(vo * one), -vd);
    }
    assert(t * d <= a);
    // the height
    lemma_mul_bound(nk, wk, n, m);
    lemma_mul_bound(ni, wi, n, m);
    lemma_mul_bound(nj, wj, n, m);
    assert(abs(vo) <= 3 * (n * m));
    assert(a <= (3 * (n * m)) * one) by (nonlinear_arith)
        requires
            a == abs(vo) * one,
            abs(vo) <= 3 * (n * m),
            one > 0,
    ;
    // the longest component of the normal carries the rest
    lemma_abs_mul(nk, dk);
    lemma_abs_mul(ni, di);
    lemma_abs_mul(nj, dj);
    let pk: int = n * abs(dk);
    let pi: int = abs(ni) * abs(di);
    let pj: int = abs(nj) * abs(dj);
    assert(pk <= d + pi + pj);
    assert(pk * t <= d * t + pi * t + pj * t) by (nonlinear_arith)
        requires
            pk <= d + pi + pj,
            t > 0,
    ;
    assert(pi * t <= n * it && pj * t <= n * jt) by (nonlinear_arith)
        requires
            pi == abs(ni) * abs(di),
            pj == abs(nj) * abs(dj),
            it == abs(di) * t,
            jt == abs(dj) * t,
            abs(ni) <= n,
            abs(nj) <= n,
            it >= 0,
            jt >= 0,
            t > 0,
    ;
    assert(pk * t == n * kt) by (nonlinear_arith)
        requires
            pk == n * abs(dk),
            kt == abs(dk) * t,
    ;
    assert(d * t == t * d) by (nonlinear_arith);
    assert(n * it <= n * (one * (m + 1)) && n * jt <= n * (one * (m + 1))) by (nonlinear_arith)
        requires
            it <= one * (m + 1),
            jt <= one * (m + 1),
            n > 0,
    ;
    assert(n * kt <= n * (one * (5 * m + 2))) by (nonlinear_arith)
        requires
            n * kt <= a + n * (one * (m + 1)) + n * (one * (m + 1)),
            a <= (3 * (n * m)) * one,
    ;
    assert(kt <= one * (5 * m + 2)) by (nonlinear_arith)
        requires
            n * kt <= n * (one * (5 * m + 2)),
            n > 0,
    ;
}

/// A triangle is met no farther away than ten times the greatest distance,
/// along an axis, between the ray's origin and a corner, and the point met
/// lies no farther than half of that from the ray's origin along any axis.
pub proof fn lemma_triangle_hit_bound(t: TriangleView, ray: RayView, m: int)
    requires
        t.wf(),
        ray.direction.within(ONE as int),
        ray.direction.is_unit(),
        ray.origin.within(m),
    ensures
        t.hit_distance(ray) matches Some(d) ==> {
            &&& 0 < d <= 10 * (m + SCENE_MAX) + 4
            &&& ray.at(d).minus(ray.origin).within(5 * (m + SCENE_MAX) + 2)
        },
{
    if t.hit_distance(ray) is Some {
        let one: int = ONE as int;
        let far: int = m + SCENE_MAX;
        let d: int = t.plane_distance(ray);
        let p: V3 = ray.at(d);
        let k: int = t.dropped_axis();
        let n: V3 = t.raw_normal();
        let dir: V3 = ray.direction;
        let w: V3 = t.a.minus(ray.origin);
        assert(w.within(far));
        // the two coordinates that are kept lie within the box of the corners
        let q: V2 = p.drop_axis(k);
        lemma_inside_is_between(
            t.a.drop_axis(k).minus(q),
            t.b.drop_axis(k).minus(q),
            t.c.drop_axis(k).minus(q),
        );
        assert(abs(q.x) <= SCENE_MAX && abs(q.y) <= SCENE_MAX);
        assert(n.dot(dir) == n.x * dir.x + n.y * dir.y + n.z * dir.z);
        assert(n.dot(w) == n.x * w.x + n.y * w.y + n.z * w.z);
        if k == 0 {
            lemma_plane_reach(n.x, n.y, n.z, dir.x, dir.y, dir.z, w.x, w.y, w.z, d, far);
        } else if k == 1 {
            lemma_plane_reach(n.y, n.x, n.z, dir.y, dir.x, dir.z, w.y, w.x, w.z, d, far);
        } else {
            lemma_plane_reach(n.z, n.x, n.y, dir.z, dir.x, dir.y, w.z, w.x, w.y, d, far);
        }
        let reach: int = one * (5 * far + 2);
        assert(one * (far + 1) <= reach) by (nonlinear_arith)
            requires
                reach == one * (5 * far + 2),
                far >= 0,
                one > 0,
        ;
        let (ax, ay, az) = (abs(dir.x), abs(dir.y), abs(dir.z));
        assert(ax * d <= reach && ay * d <= reach && az * d <= reach);
        // one component of a unit vector is at least a half
        assert(ax >= 500_000 || ay >= 500_000 || az >= 500_000) by (nonlinear_arith)
            requires
                dir.x * dir.x + dir.y * dir.y + dir.z * dir.z >= 1_000_000_000_000 - 4_000_000,
                ax == dir.x || ax == -dir.x,
                ay == dir.y || ay == -dir.y,
                az == dir.z || az == -dir.z,
                ax >= 0,
                ay >= 0,
                az >= 0,
        ;
        assert(d <= 10 * far + 4) by (nonlinear_arith)
            requires
                ax * d <= reach,
                ay * d <= reach,
                az * d <= reach,
                ax >= 500_000 || ay >= 500_000 || az >= 500_000,
                reach == one * (5 * far + 2),
                one == 1_000_000,
                d > 0,
        ;
        lemma_abs_mul(dir.x, d);
        lemma_abs_mul(dir.y, d);
        lemma_abs_mul(dir.z, d);
        assert(reach == (5 * far + 2) * one) by (nonlinear_arith)
            requires
                reach == one * (5 * far + 2),
        ;
        lemma_trunc_div_bound(dir.x * d, one, 5 * far + 2);
        lemma_trunc_div_bound(dir.y * d, one, 5 * far + 2);
        lemma_trunc_div_bound(dir.z * d, one, 5 * far + 2);
    }
}

/// The cross product of two vectors is perpendicular to the first of them.
proof fn lemma_cross_perpendicular(u: V3, w: V3)
    ensures
        u.cross(w).dot(u) == 0,
{
    let (ux, uy, uz, wx, wy, wz) = (u.x, u.y, u.z, w.x, w.y, w.z);
    assert((uy * wz - uz * wy) * ux + (uz * wx - ux * wz) * uy + (ux * wy - uy * wx) * uz == 0) by {
        assert((uy * wz - uz * wy) * ux == uy * (wz * ux) - uz * (wy * ux)) by (nonlinear_arith);
        assert((uz * wx - ux * wz) * uy == uz * (wx * uy) - ux * (wz * uy)) by (nonlinear_arith);
        assert((ux * wy - uy * wx) * uz == ux * (wy * uz) - uy * (wx * uz)) by (nonlinear_arith);
        assert(uy * (wz * ux) == ux * (wz * uy)) by (nonlinear_arith);
        assert(uz * (wy * ux) == ux * (wy * uz)) by (nonlinear_arith);
        assert(uz * (wx * uy) == uy * (wx * uz)) by (nonlinear_arith);
    }
}

/// The normal of a triangle does not depend on the corner that is named
/// first, and turns into its opposite when the corners are named in the
/// opposite sense.
proof fn lemma_raw_normal_relabelled(t: TriangleView)
    ensures
        (TriangleView { a: t.b, b: t.c, c: t.a, material: t.material }).raw_normal()
            == t.raw_normal(),
        (TriangleView { a: t.a, b: t.c, c: t.b, material: t.material }).raw_normal()
            == t.raw_normal().negated(),
{
    let u: V3 = t.b.minus(t.a);
    let w: V3 = t.c.minus(t.b);
    let (ux, uy, uz, wx, wy, wz) = (u.x, u.y, u.z, w.x, w.y, w.z);
    // the third side is -(u + w)
    assert(t.a.minus(t.c) == V3::new(-(ux + wx), -(uy + wy), -(uz + wz)));
    assert(t.c.minus(t.a) == V3::new(ux + wx, uy + wy, uz + wz));
    assert(t.b.minus(t.c) == V3::new(-wx, -wy, -wz));
    assert(wy * (-(uz + wz)) - wz * (-(uy + wy)) == uy * wz - uz * wy) by (nonlinear_arith);
    assert(wz * (-(ux + wx)) - wx * (-(uz + wz)) == uz * wx - ux * wz) by (nonlinear_arith);
    assert(wx * (-(uy + wy)) - wy * (-(ux + wx)) == ux * wy - uy * wx) by (nonlinear_arith);
    assert((uy + wy) * (-wz) - (uz + wz) * (-wy) == -(uy * wz - uz * wy)) by (nonlinear_arith);
    assert((uz + wz) * (-wx) - (ux + wx) * (-wz) == -(uz * wx - ux * wz)) by (nonlinear_arith);
    assert((ux + wx) * (-wy) - (uy + wy) * (-wx) == -(ux * wy - uy * wx)) by (nonlinear_arith);
}

/// Whether a ray meets a triangle, and where, depends neither on the corner
/// that is named first nor on the sense in which the corners are named.
pub proof fn lemma_hit_any_winding(t: TriangleView, ray: RayView)
    ensures
        (TriangleView { a: t.b, b: t.c, c: t.a, material: t.material }).hit_distance(ray)
            == t.hit_distance(ray),
        (TriangleView { a: t.a, b: t.c, c: t.b, material: t.material }).hit_distance(ray)
            == t.hit_distance(ray),
{
    let turned: TriangleView = TriangleView { a: t.b, b: t.c, c: t.a, material: t.material };
    let flipped: TriangleView = TriangleView { a: t.a, b: t.c, c: t.b, material: t.material };
    let n: V3 = t.raw_normal();
    let d: V3 = ray.direction;
    lemma_raw_normal_relabelled(t);
    // the plane through `b` is the plane through `a`
    let u: V3 = t.b.minus(t.a);
    let wa: V3 = t.a.minus(ray.origin);
    let wb: V3 = t.b.minus(ray.origin);
    lemma_cross_perpendicular(u, t.c.minus(t.b));
    assert(n.dot(wb) == n.dot(wa) + n.dot(u)) by (nonlinear_arith)
        requires
            wb.x == wa.x + u.x,
            wb.y == wa.y + u.y,
            wb.z == wa.z + u.z,
            n.dot(wb) == n.x * wb.x + n.y * wb.y + n.z * wb.z,
            n.dot(wa) == n.x * wa.x + n.y * wa.y + n.z * wa.z,
            n.dot(u) == n.x * u.x + n.y * u.y + n.z * u.z,
    ;
    assert(turned.height(ray) == t.height(ray));
    assert(turned.slope(ray) == t.slope(ray));
    // the opposite normal gives the opposite height and slope
    assert(n.negated().dot(d) == -n.dot(d)) by (nonlinear_arith)
        requires
            n.negated().dot(d) == (-n.x) * d.x + (-n.y) * d.y + (-n.z) * d.z,
            n.dot(d) == n.x * d.x + n.y * d.y + n.z * d.z,
    ;
    assert(n.negated().dot(wa) == -n.dot(wa)) by (nonlinear_arith)
        requires
            n.negated().dot(wa) == (-n.x) * wa.x + (-n.y) * wa.y + (-n.z) * wa.z,
            n.dot(wa) == n.x * wa.x + n.y * wa.y + n.z * wa.z,
    ;
    assert(flipped.slope(ray) == -t.slope(ray));
    assert(flipped.height(ray) == -t.height(ray));
    assert((-t.height(ray)) * ONE == -(t.height(ray) * ONE)) by (nonlinear_arith);
    assert(flipped.dropped_axis() == t.dropped_axis());
    assert(turned.dropped_axis() == t.dropped_axis());
    if t.slope(ray) != 0 {
        assert(turned.plane_distance(ray) == t.plane_distance(ray));
        assert(flipped.plane_distance(ray) == t.plane_distance(ray));
        let p: V3 = ray.at(t.plane_distance(ray));
        let k: int = t.dropped_axis();
        lemma_inside_any_order(
            t.a.drop_axis(k).minus(p.drop_axis(k)),
            t.b.drop_axis(k).minus(p.drop_axis(k)),
            t.c.drop_axis(k).minus(p.drop_axis(k)),
        );
    }
}

impl Triangle {
    /// The distance at which the ray meets the plane of the triangle, or
    /// nothing where the ray runs parallel to the plane.
    pub fn plane_distance(&self, ray: &Ray) -> (cut: Option<i128>)
        requires
            self@.wf(),
            ray@.wf(),
        ensures
            self@.slope(ray@) == 0 ==> cut is None,
            self@.slope(ray@) != 0 ==> cut == Some(self@.plane_distance(ray@) as i128),
            cut matches Some(t) ==> t == self@.plane_distance(ray@),
    {
        let ghost one: int = ONE as int;
        let ghost span: int = 16_000_000_000;
        let ghost nmax: int = 8_000_000_000_000_000_000;
        let normal: Vec3 = self.normal_ugly(Vec3::zeros());
        let to_plane: Vec3 = self.vertices[0].minus(ray.origin());
        proof {
            lemma_raw_normal_bound(self@);
            lemma_dot_bound(normal@, ray@.direction, nmax, one);
            lemma_dot_bound(normal@, to_plane@, nmax, span);
            assert(nmax * one == 8_000_000_000_000_000_000_000_000) by (nonlinear_arith)
                requires
                    nmax == 8_000_000_000_000_000_000,
                    one == 1_000_000,
            ;
            assert(nmax * span == 128_000_000_000_000_000_000_000_000_000) by (nonlinear_arith)
                requires
                    nmax == 8_000_000_000_000_000_000,
                    span == 16_000_000_000,
            ;
        }
        let v_d: i128 = normal.dot(ray.direction());
        if v_d == 0 {
            return None;
        }
        let v_o: i128 = normal.dot(&to_plane);
        proof {
            lemma_mul_bound(v_o as int, one, 384_000_000_000_000_000_000_000_000_000, one);
            assert(384_000_000_000_000_000_000_000_000_000int * one
                == 384_000_000_000_000_000_000_000_000_000_000_000) by (nonlinear_arith)
                requires
                    one == 1_000_000,
            ;
            if v_d > 0 {
                lemma_trunc_div_shrinks(v_o * one, v_d as int);
            } else {
                lemma_trunc_div_shrinks(-(v_o * one), -v_d);
            }
        }
        let scaled: i128 = v_o * (ONE as i128);
        if v_d > 0 {
            Some(scaled / v_d)
        } else {
            Some((-scaled) / (-v_d))
        }
    }

    /// Whether the projection of `point` lies inside the projection of the
    /// triangle.
    pub fn covers(&self, point: &Vec3) -> (inside: bool)
        requires
            self@.wf(),
            point@.within(ORIGIN_MAX + DISTANCE_MAX),
        ensures
            inside == self@.covers(point@),
    {
        let normal: Vec3 = self.normal_ugly(Vec3::zeros());
        let dominant_index: usize = normal.iamax();
        let r: Vec2 = point.remove_row(dominant_index);
        let a: Vec2 = self.vertices[0].remove_row(dominant_index).minus(&r);
        let b: Vec2 = self.vertices[1].remove_row(dominant_index).minus(&r);
        let c: Vec2 = self.vertices[2].remove_row(dominant_index).minus(&r);
        encloses_origin(&a, &b, &c)
    }
}

impl Object for Triangle {
    open spec fn model(&self) -> PrimitiveView {
        PrimitiveView::Triangle(self@)
    }

    fn get_material(&self) -> (m: &Material) {
        &self.material
    }

    fn intersected_by(&self, ray: &Ray, t_closest: &mut i64) -> (hit: Option<Vec3>) {
        let t: i128 = match self.plane_distance(ray) {
            Some(t) => t,
            None => {
                return None;
            },
        };
        if t <= 0 || t >= *t_closest as i128 {
            return None;
        }
        if t >= DISTANCE_MAX as i128 {
            // so far away the ray cannot meet the triangle, only its plane
            proof {
                lemma_triangle_hit_bound(self@, ray@, ORIGIN_MAX as int);
            }
            return None;
        }
        let point: Vec3 = ray.at(t as i64);
        if self.covers(&point) {
            *t_closest = t as i64;
            Some(point)
        } else {
            None
        }
    }

    fn normal_ugly(&self, point: Vec3) -> (n: Vec3) {
        assert(self.model().wf());
        proof {
            lemma_raw_normal_bound(self@);
        }
        let ab: Vec3 = self.vertices[1].minus(&self.vertices[0]);
        let bc: Vec3 = self.vertices[2].minus(&self.vertices[1]);
        ab.cross(&bc)
    }
}

} // verus!
