//! The even-odd test that tells whether a point of the plane lies inside a
//! triangle.
//!
//! The corners are given relative to the point under test, which thus sits at
//! the origin. A half-line runs from the origin along the positive first
//! axis, and the test counts the sides of the triangle that it crosses. A
//! corner on the axis itself counts as lying above it, so that no crossing is
//! counted twice or missed. Where a side crosses is decided by the sign of a
//! planar cross product, without any division: the test is exact.

use vstd::prelude::*;
use crate::fixed::lemma_mul_bound;
use crate::geometry::{Vec2, V2};

verus! {

/// Largest coordinate magnitude for which the test is computed: two to the
/// power 62.
pub const PLANE_MAX: i64 = 0x4000_0000_0000_0000;

/// The point lies strictly below the first axis.
pub open spec fn below(p: V2) -> bool {
    p.y < 0
}

/// The side from `p` to `q` has one end below the first axis and the other on
/// or above it.
pub open spec fn straddles(p: V2, q: V2) -> bool {
    below(p) != below(q)
}

/// For a side that straddles the first axis: the point where it meets the
/// axis has a positive abscissa. That abscissa is `p.cross(q) / (q.y - p.y)`.
pub open spec fn meets_right(p: V2, q: V2) -> bool {
    if q.y > p.y {
        p.cross(q) > 0
    } else {
        p.cross(q) < 0
    }
}

/// The half-line from the origin along the positive first axis crosses the
/// side from `p` to `q`.
pub open spec fn edge_crosses(p: V2, q: V2) -> bool {
    straddles(p, q) && meets_right(p, q)
}

/// Number of sides of the triangle `a`, `b`, `c` that the half-line crosses.
pub open spec fn crossings(a: V2, b: V2, c: V2) -> nat {
    let ab: nat = if edge_crosses(a, b) { 1 } else { 0 };
    let bc: nat = if edge_crosses(b, c) { 1 } else { 0 };
    let ca: nat = if edge_crosses(c, a) { 1 } else { 0 };
    ab + bc + ca
}

/// The origin lies inside the triangle `a`, `b`, `c`: the half-line crosses an
/// odd number of its sides.
pub open spec fn origin_inside(a: V2, b: V2, c: V2) -> bool {
    crossings(a, b, c) % 2 == 1
}

/// A side whose two ends lie strictly right of the origin and on either side
/// of the axis meets the axis right of the origin; one whose two ends lie on
/// or left of the origin does not.
pub proof fn lemma_meets_right_by_side(p: V2, q: V2)
    requires
        straddles(p, q),
    ensures
        p.x > 0 && q.x > 0 ==> meets_right(p, q),
        p.x <= 0 && q.x <= 0 ==> !meets_right(p, q),
{
    let (px, py, qx, qy) = (p.x, p.y, q.x, q.y);
    if px > 0 && qx > 0 {
        if qy > py {
            assert(px * qy - py * qx > 0) by (nonlinear_arith)
                requires
                    px > 0,
                    qx > 0,
                    py < 0,
                    qy >= 0,
            ;
        } else {
            assert(px * qy - py * qx < 0) by (nonlinear_arith)
                requires
                    px > 0,
                    qx > 0,
                    qy < 0,
                    py >= 0,
            ;
        }
    }
    if px <= 0 && qx <= 0 {
        if qy > py {
            assert(px * qy - py * qx <= 0) by (nonlinear_arith)
                requires
                    px <= 0,
                    qx <= 0,
                    py < 0,
                    qy >= 0,
            ;
        } else {
            assert(px * qy - py * qx >= 0) by (nonlinear_arith)
                requires
                    px <= 0,
                    qx <= 0,
                    qy < 0,
                    py >= 0,
            ;
        }
    }
}

/// A triangle that holds the origin has a corner on either side of it along
/// both axes: the origin lies within the box of the three corners.
pub proof fn lemma_inside_is_between(a: V2, b: V2, c: V2)
    requires
        origin_inside(a, b, c),
    ensures
        a.x > 0 || b.x > 0 || c.x > 0,
        a.x <= 0 || b.x <= 0 || c.x <= 0,
        a.y < 0 || b.y < 0 || c.y < 0,
        a.y >= 0 || b.y >= 0 || c.y >= 0,
{
    if straddles(a, b) {
        lemma_meets_right_by_side(a, b);
    }
    if straddles(b, c) {
        lemma_meets_right_by_side(b, c);
    }
    if straddles(c, a) {
        lemma_meets_right_by_side(c, a);
    }
}

/// Whether a side is crossed does not depend on the end it is walked from.
pub proof fn lemma_edge_crosses_symmetric(p: V2, q: V2)
    ensures
        edge_crosses(p, q) == edge_crosses(q, p),
{
    assert(q.cross(p) == -p.cross(q)) by (nonlinear_arith)
        requires
            q.cross(p) == q.x * p.y - q.y * p.x,
            p.cross(q) == p.x * q.y - p.y * q.x,
    ;
}

/// The test gives the same answer for the three corners in any order: it
/// depends on neither the corner that is named first nor the sense in which
/// the triangle is walked.
pub proof fn lemma_inside_any_order(a: V2, b: V2, c: V2)
    ensures
        origin_inside(b, c, a) == origin_inside(a, b, c),
        origin_inside(c, a, b) == origin_inside(a, b, c),
        origin_inside(a, c, b) == origin_inside(a, b, c),
        origin_inside(c, b, a) == origin_inside(a, b, c),
        origin_inside(b, a, c) == origin_inside(a, b, c),
{
    lemma_edge_crosses_symmetric(a, b);
    lemma_edge_crosses_symmetric(b, c);
    lemma_edge_crosses_symmetric(c, a);
}

/// The sign of a product, from the signs of its factors.
proof fn lemma_product_sign(s: int, y: int)
    by (nonlinear_arith)
    ensures
        s > 0 && y > 0 ==> s * y > 0,
        s > 0 && y < 0 ==> s * y < 0,
        s < 0 && y > 0 ==> s * y < 0,
        s < 0 && y < 0 ==> s * y > 0,
        s == 0 || y == 0 ==> s * y == 0,
{
}

/// `(q * r - s * t) * y` written out as a difference of two products.
proof fn lemma_distribute(q: int, r: int, s: int, t: int, y: int)
    by (nonlinear_arith)
    ensures
        (q * r - s * t) * y == q * (r * y) - s * (t * y),
{
}

/// The product of three integers does not depend on their order.
proof fn lemma_rotate(q: int, r: int, s: int)
    by (nonlinear_arith)
    ensures
        q * (r * s) == r * (s * q),
        q * (r * s) == s * (q * r),
        q * (r * s) == q * (s * r),
{
}

/// The second coordinate of `(b x c) * a + (c x a) * b + (a x b) * c`, which
/// is zero for any three vectors of the plane.
proof fn lemma_three_vectors(a: V2, b: V2, c: V2)
    ensures
        b.cross(c) * a.y + c.cross(a) * b.y + a.cross(b) * c.y == 0,
{
    lemma_distribute(b.x, c.y, b.y, c.x, a.y);
    lemma_distribute(c.x, a.y, c.y, a.x, b.y);
    lemma_distribute(a.x, b.y, a.y, b.x, c.y);
    // b.x * (c.y * a.y) cancels a.y * (b.x * c.y)
    lemma_rotate(a.y, b.x, c.y);
    // b.y * (c.x * a.y) cancels c.x * (a.y * b.y)
    lemma_rotate(c.x, a.y, b.y);
    // c.y * (a.x * b.y) cancels a.x * (b.y * c.y)
    lemma_rotate(a.x, b.y, c.y);
}

/// The origin lies on none of the three lines that carry the sides of the
/// triangle.
pub open spec fn off_the_sides(a: V2, b: V2, c: V2) -> bool {
    a.cross(b) != 0 && b.cross(c) != 0 && c.cross(a) != 0
}

/// The three corners turn the same way around the origin: all
/// counter-clockwise or all clockwise.
pub open spec fn same_turn(a: V2, b: V2, c: V2) -> bool {
    ||| a.cross(b) > 0 && b.cross(c) > 0 && c.cross(a) > 0
    ||| a.cross(b) < 0 && b.cross(c) < 0 && c.cross(a) < 0
}

/// The even-odd test is the geometric one: where the origin lies on none of
/// the lines that carry the sides, the half-line crosses an odd number of
/// sides exactly when the three corners turn the same way around the origin.
pub proof fn lemma_inside_iff_same_turn(a: V2, b: V2, c: V2)
    requires
        off_the_sides(a, b, c),
    ensures
        origin_inside(a, b, c) <==> same_turn(a, b, c),
{
    let ab: int = a.cross(b);
    let bc: int = b.cross(c);
    let ca: int = c.cross(a);
    lemma_three_vectors(a, b, c);
    lemma_product_sign(bc, a.y);
    lemma_product_sign(ca, b.y);
    lemma_product_sign(ab, c.y);
    lemma_product_sign(a.x, b.y);
    lemma_product_sign(a.y, b.x);
    lemma_product_sign(b.x, c.y);
    lemma_product_sign(b.y, c.x);
    lemma_product_sign(c.x, a.y);
    lemma_product_sign(c.y, a.x);
}

/// Exchanging the two axes of the plane does not change the answer of the
/// test, where the origin lies on none of the lines that carry the sides.
pub proof fn lemma_inside_axes_swapped(a: V2, b: V2, c: V2)
    requires
        off_the_sides(a, b, c),
    ensures
        origin_inside(a.swapped(), b.swapped(), c.swapped()) == origin_inside(a, b, c),
{
    assert(a.swapped().cross(b.swapped()) == -a.cross(b)) by (nonlinear_arith)
        requires
            a.swapped().cross(b.swapped()) == a.y * b.x - a.x * b.y,
            a.cross(b) == a.x * b.y - a.y * b.x,
    ;
    assert(b.swapped().cross(c.swapped()) == -b.cross(c)) by (nonlinear_arith)
        requires
            b.swapped().cross(c.swapped()) == b.y * c.x - b.x * c.y,
            b.cross(c) == b.x * c.y - b.y * c.x,
    ;
    assert(c.swapped().cross(a.swapped()) == -c.cross(a)) by (nonlinear_arith)
        requires
            c.swapped().cross(a.swapped()) == c.y * a.x - c.x * a.y,
            c.cross(a) == c.x * a.y - c.y * a.x,
    ;
    lemma_inside_iff_same_turn(a, b, c);
    lemma_inside_iff_same_turn(a.swapped(), b.swapped(), c.swapped());
}

/// Whether the half-line from the origin along the positive first axis
/// crosses the side from `p` to `q`.
pub fn crosses(p: &Vec2, q: &Vec2) -> (hit: bool)
    requires
        -PLANE_MAX <= p.x <= PLANE_MAX,
        -PLANE_MAX <= p.y <= PLANE_MAX,
        -PLANE_MAX <= q.x <= PLANE_MAX,
        -PLANE_MAX <= q.y <= PLANE_MAX,
    ensures
        hit == edge_crosses(p@, q@),
{
    let p_below: bool = p.y < 0;
    let q_below: bool = q.y < 0;
    if p_below == q_below {
        return false;
    }
    proof {
        lemma_meets_right_by_side(p@, q@);
    }
    if p.x > 0 && q.x > 0 {
        true
    } else if p.x > 0 || q.x > 0 {
        proof {
            let most: int = PLANE_MAX as int;
            lemma_mul_bound(p.x as int, q.y as int, most, most);
            lemma_mul_bound(p.y as int, q.x as int, most, most);
            assert(PLANE_MAX * PLANE_MAX == 0x1000_0000_0000_0000_0000_0000_0000_0000)
                by (nonlinear_arith);
        }
        let turn: i128 = (p.x as i128) * (q.y as i128) - (p.y as i128) * (q.x as i128);
        if q.y > p.y {
            turn > 0
        } else {
            turn < 0
        }
    } else {
        false
    }
}

/// Whether the origin lies inside the triangle `a`, `b`, `c`.
pub fn encloses_origin(a: &Vec2, b: &Vec2, c: &Vec2) -> (inside: bool)
    requires
        -PLANE_MAX <= a.x <= PLANE_MAX,
        -PLANE_MAX <= a.y <= PLANE_MAX,
        -PLANE_MAX <= b.x <= PLANE_MAX,
        -PLANE_MAX <= b.y <= PLANE_MAX,
        -PLANE_MAX <= c.x <= PLANE_MAX,
        -PLANE_MAX <= c.y <= PLANE_MAX,
    ensures
        inside == origin_inside(a@, b@, c@),
{
    let mut num_crossings: u8 = 0;
    if crosses(a, b) {
        num_crossings = num_crossings + 1;
    }
    if crosses(b, c) {
        num_crossings = num_crossings + 1;
    }
    if crosses(c, a) {
        num_crossings = num_crossings + 1;
    }
    num_crossings % 2 == 1
}

} // verus!
