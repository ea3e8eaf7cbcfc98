//! Materials and the local illumination model: ambient, diffuse and specular
//! light at one point of a surface.

use vstd::prelude::*;
use crate::fixed::{
    abs, clamp, fx_mul, fx_pow, lemma_fx_pow_unit, lemma_mul_bound, lemma_trunc_div_bound, pow_fx,
    ONE, SCENE_MAX,
};
use crate::geometry::{lemma_dot_bound, Vec3, V3};
use crate::scene::Scene;

verus! {

/// Largest magnitude of a colour channel that shading can produce from a
/// valid scene.
pub const COLOR_MAX: i64 = 5_000_000_000_000_000;

/// The mathematical model of a `Material`.
pub struct MaterialView {
    pub k_d: int,
    pub k_s: int,
    pub k_a: int,
    pub k_gls: nat,
    pub o_d: V3,
    pub o_s: V3,
    pub refl: int,
}

/// How a surface answers light.
///
/// `k_a`, `k_d` and `k_s` weigh the ambient, diffuse and specular terms;
/// they are meant to lie between zero and one, which nothing enforces.
/// `k_gls` is the specular exponent, a whole number. `o_d` and `o_s` are the
/// diffuse and specular colours of the surface. `refl` is the weight of a
/// mirror reflection: it is carried with the material, and the illumination
/// model does not read it.
#[derive(Clone, Copy, Debug, PartialEq, Eq)]
pub struct Material {
    pub k_d: i64,
    pub k_s: i64,
    pub k_a: i64,
    pub k_gls: u32,
    pub o_d: Vec3,
    pub o_s: Vec3,
    pub refl: i64,
}

impl View for Material {
    type V = MaterialView;

    open spec fn view(&self) -> MaterialView {
        MaterialView {
            k_d: self.k_d as int,
            k_s: self.k_s as int,
            k_a: self.k_a as int,
            k_gls: self.k_gls as nat,
            o_d: self.o_d@,
            o_s: self.o_s@,
            refl: self.refl as int,
        }
    }
}

impl MaterialView {
    /// The three weights and the two colours are within `SCENE_MAX`.
    pub open spec fn wf(self) -> bool {
        &&& abs(self.k_d) <= SCENE_MAX
        &&& abs(self.k_s) <= SCENE_MAX
        &&& abs(self.k_a) <= SCENE_MAX
        &&& self.o_d.within(SCENE_MAX as int)
        &&& self.o_s.within(SCENE_MAX as int)
    }

    /// The ambient term: the ambient light tinted by the diffuse colour,
    /// weighed by `k_a`.
    pub open spec fn ambient(self, ambient_light: V3) -> V3 {
        ambient_light.component_mul(self.o_d).scaled(self.k_a)
    }

    /// The diffuse term: the light tinted by the diffuse colour, weighed by
    /// `k_d` and by the cosine `n_dot_l` between normal and light, where that
    /// is positive.
    pub open spec fn diffuse(self, light_color: V3, n_dot_l: int) -> V3 {
        light_color.component_mul(self.o_d).scaled(self.k_d).scaled(
            if n_dot_l > 0 {
                n_dot_l
            } else {
                0
            },
        )
    }

    /// The specular term: the light tinted by the specular colour, weighed by
    /// `k_s` and by the cosine `v_dot_r` between the direction toward the eye
    /// and the mirrored light, raised to the power `k_gls`. The cosine is
    /// taken between zero and one, its range for unit vectors.
    pub open spec fn specular(self, light_color: V3, v_dot_r: int) -> V3 {
        light_color.component_mul(self.o_s).scaled(self.k_s).scaled(
            fx_pow(clamp(v_dot_r, 0, ONE as int), self.k_gls),
        )
    }
}

/// The direction of the light `l` mirrored about the unit normal `n`:
/// `2 * (n . l) * n - l`.
pub open spec fn mirrored(n: V3, l: V3) -> V3 {
    n.plus(n).scaled(n.fx_dot(l)).minus(l)
}

/// The colour of a lit point of a surface.
///
/// `normal` is the unit normal at the point, `view` the unit direction in
/// which the eye looks at it, `to_light` the direction from the point toward
/// the light, of any length. The result is the sum of the ambient and diffuse
/// terms and, where the surface faces the light, of the specular term. No
/// channel is limited to the range from zero to one.
pub open spec fn phong(
    m: MaterialView,
    normal: V3,
    view: V3,
    to_light: V3,
    light_color: V3,
    ambient_light: V3,
) -> V3 {
    let l = to_light.normalized();
    let n_dot_l = normal.fx_dot(l);
    let v_dot_r = view.negated().fx_dot(mirrored(normal, l));
    let base = m.ambient(ambient_light).plus(m.diffuse(light_color, n_dot_l));
    if n_dot_l > 0 {
        base.plus(m.specular(light_color, v_dot_r))
    } else {
        base
    }
}

/// A fixed-point product of two bounded scalars is bounded by the product of
/// the bounds, divided by one.
pub proof fn lemma_fx_mul_bound(a: int, b: int, ma: int, mb: int, m: int)
    requires
        abs(a) <= ma,
        abs(b) <= mb,
        m >= 0,
        ma * mb <= m * ONE,
    ensures
        abs(fx_mul(a, b)) <= m,
{
    lemma_mul_bound(a, b, ma, mb);
    lemma_trunc_div_bound(a * b, ONE as int, m);
}

/// Scaling a bounded vector by a bounded scalar gives a bounded vector.
pub proof fn lemma_scaled_bound(v: V3, k: int, mv: int, mk: int, m: int)
    requires
        v.within(mv),
        abs(k) <= mk,
        m >= 0,
        mv * mk <= m * ONE,
    ensures
        v.scaled(k).within(m),
{
    lemma_fx_mul_bound(v.x, k, mv, mk, m);
    lemma_fx_mul_bound(v.y, k, mv, mk, m);
    lemma_fx_mul_bound(v.z, k, mv, mk, m);
}

/// The component-wise product of two bounded vectors is bounded.
pub proof fn lemma_component_mul_bound(a: V3, b: V3, ma: int, mb: int, m: int)
    requires
        a.within(ma),
        b.within(mb),
        m >= 0,
        ma * mb <= m * ONE,
    ensures
        a.component_mul(b).within(m),
{
    lemma_fx_mul_bound(a.x, b.x, ma, mb, m);
    lemma_fx_mul_bound(a.y, b.y, ma, mb, m);
    lemma_fx_mul_bound(a.z, b.z, ma, mb, m);
}

/// The fixed-point dot product of two vectors with no component beyond one is
/// at most three.
pub proof fn lemma_fx_dot_bound(a: V3, b: V3, ma: int, mb: int, m: int)
    requires
        a.within(ma),
        b.within(mb),
        m >= 0,
        3 * (ma * mb) <= m * ONE,
    ensures
        abs(a.fx_dot(b)) <= m,
        a.dot_magnitude(b) <= 3 * (ma * mb),
{
    lemma_dot_bound(a, b, ma, mb);
    lemma_trunc_div_bound(a.dot(b), ONE as int, m);
}

/// The fixed-point product of two scalars that are not negative is not
/// negative.
pub proof fn lemma_fx_mul_nonnegative(a: int, b: int)
    requires
        a >= 0,
        b >= 0,
    ensures
        fx_mul(a, b) >= 0,
{
    assert(a * b >= 0) by (nonlinear_arith)
        requires
            a >= 0,
            b >= 0,
    ;
    lemma_trunc_div_bound(a * b, ONE as int, a * b);
}

/// Light that is not negative, on a material whose weights and colours are
/// not negative, gives a colour that is not negative.
pub proof fn lemma_phong_nonnegative(
    m: MaterialView,
    normal: V3,
    view: V3,
    to_light: V3,
    light_color: V3,
    ambient_light: V3,
)
    requires
        m.k_a >= 0,
        m.k_d >= 0,
        m.k_s >= 0,
        m.o_d.nonnegative(),
        m.o_s.nonnegative(),
        light_color.nonnegative(),
        ambient_light.nonnegative(),
    ensures
        phong(m, normal, view, to_light, light_color, ambient_light).nonnegative(),
{
    let l: V3 = to_light.normalized();
    let n_dot_l: int = normal.fx_dot(l);
    let v_dot_r: int = view.negated().fx_dot(mirrored(normal, l));
    let lit: int = if n_dot_l > 0 {
        n_dot_l
    } else {
        0
    };
    let shine: int = fx_pow(clamp(v_dot_r, 0, ONE as int), m.k_gls);
    lemma_fx_pow_unit(clamp(v_dot_r, 0, ONE as int), m.k_gls);
    lemma_scaled_nonnegative(ambient_light.component_mul(m.o_d), m.k_a);
    lemma_component_mul_nonnegative(ambient_light, m.o_d);
    lemma_component_mul_nonnegative(light_color, m.o_d);
    lemma_component_mul_nonnegative(light_color, m.o_s);
    lemma_scaled_nonnegative(light_color.component_mul(m.o_d), m.k_d);
    lemma_scaled_nonnegative(light_color.component_mul(m.o_d).scaled(m.k_d), lit);
    lemma_scaled_nonnegative(light_color.component_mul(m.o_s), m.k_s);
    lemma_scaled_nonnegative(light_color.component_mul(m.o_s).scaled(m.k_s), shine);
}

/// Scaling a vector that is not negative by a scalar that is not negative
/// gives a vector that is not negative.
proof fn lemma_scaled_nonnegative(v: V3, k: int)
    requires
        v.nonnegative(),
        k >= 0,
    ensures
        v.scaled(k).nonnegative(),
{
    lemma_fx_mul_nonnegative(v.x, k);
    lemma_fx_mul_nonnegative(v.y, k);
    lemma_fx_mul_nonnegative(v.z, k);
}

/// The component-wise product of two vectors that are not negative is not
/// negative.
proof fn lemma_component_mul_nonnegative(a: V3, b: V3)
    requires
        a.nonnegative(),
        b.nonnegative(),
    ensures
        a.component_mul(b).nonnegative(),
{
    lemma_fx_mul_nonnegative(a.x, b.x);
    lemma_fx_mul_nonnegative(a.y, b.y);
    lemma_fx_mul_nonnegative(a.z, b.z);
}

impl Material {
    /// The colour of a lit point of this material in `scene`, seen along
    /// `view_direction`, where the surface has the unit normal `normal`.
    pub fn color(&self, normal: &Vec3, view_direction: Vec3, scene: &Scene) -> (c: Vec3)
        requires
            self@.wf(),
            normal@.within(ONE as int),
            view_direction@.within(ONE as int),
            scene@.wf(),
        ensures
            c@ == phong(
                self@,
                normal@,
                view_direction@,
                scene@.direction_to_light,
                scene@.light_color,
                scene@.ambient_light,
            ),
            c@.within(COLOR_MAX as int),
    {
        let ghost one: int = ONE as int;
        let ghost big: int = SCENE_MAX as int;
        let v: Vec3 = view_direction.negated();
        let dl: Vec3 = scene.direction_to_light.normalize();
        proof {
            assert(one * one == 1_000_000_000_000) by (nonlinear_arith)
                requires
                    one == 1_000_000,
            ;
            lemma_fx_dot_bound(normal@, dl@, one, one, 3 * one);
        }
        let ndl_wide: i128 = normal.dot(&dl) / (ONE as i128);
        let ndl: i64 = ndl_wide as i64;
        let twice: Vec3 = normal.plus(normal);
        proof {
            assert((2 * one) * (3 * one) == (6 * one) * one) by (nonlinear_arith);
            lemma_scaled_bound(twice@, ndl as int, 2 * one, 3 * one, 6 * one);
        }
        let r: Vec3 = twice.scaled(ndl).minus(&dl);
        proof {
            assert(r@ == mirrored(normal@, dl@));
            assert(3 * (one * (7 * one)) == (21 * one) * one) by (nonlinear_arith);
            lemma_fx_dot_bound(v@, r@, one, 7 * one, 21 * one);
        }
        let vr_wide: i128 = v.dot(&r) / (ONE as i128);
        let vr: i64 = vr_wide as i64;
        let cosine: i64 = if vr < 0 {
            0
        } else if vr > ONE {
            ONE
        } else {
            vr
        };
        proof {
            let tint_bound: int = 1_000_000_000_000;
            let term_bound: int = 1_000_000_000_000_000;
            assert(big * big == tint_bound * one) by (nonlinear_arith)
                requires
                    big == 1_000_000_000,
                    one == 1_000_000,
                    tint_bound == 1_000_000_000_000,
            ;
            assert(tint_bound * big == term_bound * one) by (nonlinear_arith)
                requires
                    big == 1_000_000_000,
                    one == 1_000_000,
                    tint_bound == 1_000_000_000_000,
                    term_bound == 1_000_000_000_000_000,
            ;
            assert(term_bound * (3 * one) == (3 * term_bound) * one) by (nonlinear_arith);
            lemma_component_mul_bound(scene.ambient_light@, self.o_d@, big, big, tint_bound);
            lemma_component_mul_bound(scene.light_color@, self.o_d@, big, big, tint_bound);
            lemma_component_mul_bound(scene.light_color@, self.o_s@, big, big, tint_bound);
            lemma_scaled_bound(
                scene.ambient_light@.component_mul(self.o_d@),
                self.k_a as int,
                tint_bound,
                big,
                term_bound,
            );
            lemma_scaled_bound(
                scene.light_color@.component_mul(self.o_d@),
                self.k_d as int,
                tint_bound,
                big,
                term_bound,
            );
            lemma_scaled_bound(
                scene.light_color@.component_mul(self.o_s@),
                self.k_s as int,
                tint_bound,
                big,
                term_bound,
            );
            let lit: int = if ndl > 0 {
                ndl as int
            } else {
                0
            };
            lemma_scaled_bound(
                scene.light_color@.component_mul(self.o_d@).scaled(self.k_d as int),
                lit,
                term_bound,
                3 * one,
                3 * term_bound,
            );
            lemma_fx_pow_unit(cosine as int, self.k_gls as nat);
            lemma_scaled_bound(
                scene.light_color@.component_mul(self.o_s@).scaled(self.k_s as int),
                fx_pow(cosine as int, self.k_gls as nat),
                term_bound,
                one,
                term_bound,
            );
        }
        let ambient: Vec3 = scene.ambient_light.component_mul(&self.o_d).scaled(self.k_a);
        let lit: i64 = if ndl > 0 {
            ndl
        } else {
            0
        };
        let diffuse: Vec3 = scene.light_color.component_mul(&self.o_d).scaled(self.k_d).scaled(lit);
        let base: Vec3 = ambient.plus(&diffuse);
        if ndl > 0 {
            let shine: i64 = pow_fx(cosine, self.k_gls);
            let specular: Vec3 = scene.light_color.component_mul(&self.o_s).scaled(
                self.k_s,
            ).scaled(shine);
            base.plus(&specular)
        } else {
            base
        }
    }
}

} // verus!
