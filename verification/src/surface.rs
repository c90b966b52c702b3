//! The surface of the torus: where a sample of it lies once the torus is
//! turned, and how brightly it is lit.
//!
//! A sample is a pair of angles: `theta` goes round the cross-section of the
//! tube, `phi` round the axis of the torus. The torus is then turned by `a`
//! about the x-axis and by `b` about the z-axis, and moved away from the
//! viewer along z. All four angles come as [`Trig`] pairs, and every
//! coordinate is a whole multiple of `1 / UNIT`: products of cosines and
//! sines are kept in full, so that nothing is rounded.

use vstd::prelude::*;
use crate::arith::{
    sq,
    mul_i128,
    lemma_sq_bound,
    lemma_sq_nonneg,
    lemma_sq_mul,
    lemma_mul_le,
    lemma_turn_shrinks,
};
use crate::projection::Projection;
use crate::trig::{Trig, ONE};

verus! {

/// The fixed-point value of 1 for coordinates and luminance: the fourth
/// power of [`ONE`].
pub const UNIT: i128 = 1208925819614629174706176;

/// The x coordinate of a point of the tube's cross-section before it is
/// swept round the axis, scaled by [`ONE`].
pub open spec fn circle_x(p: Projection, theta: Trig) -> int {
    p.ring_radius() * ONE + p.tube_radius() * theta.cos()
}

/// The y coordinate of a point of the tube's cross-section, scaled by
/// [`ONE`].
pub open spec fn circle_y(p: Projection, theta: Trig) -> int {
    p.tube_radius() * theta.sin()
}

/// The x coordinate of the turned sample, scaled by [`UNIT`].
pub open spec fn point_x(p: Projection, a: Trig, b: Trig, theta: Trig, phi: Trig) -> int {
    circle_x(p, theta) * (b.cos() * phi.cos() * ONE + a.sin() * b.sin() * phi.sin())
        - circle_y(p, theta) * a.cos() * b.sin() * ONE
}

/// The y coordinate of the turned sample, scaled by [`UNIT`].
pub open spec fn point_y(p: Projection, a: Trig, b: Trig, theta: Trig, phi: Trig) -> int {
    circle_x(p, theta) * (b.sin() * phi.cos() * ONE - a.sin() * b.cos() * phi.sin())
        + circle_y(p, theta) * a.cos() * b.cos() * ONE
}

/// How far the turned sample lies in front of or behind the centre of the
/// torus, scaled by [`UNIT`].
pub open spec fn point_depth(p: Projection, a: Trig, theta: Trig, phi: Trig) -> int {
    a.cos() * circle_x(p, theta) * phi.sin() * ONE + circle_y(p, theta) * a.sin() * ONE * ONE
}

/// The distance of the turned sample from the viewer along z, scaled by
/// [`UNIT`].
pub open spec fn point_z(p: Projection, a: Trig, theta: Trig, phi: Trig) -> int {
    p.viewer_offset() * UNIT + point_depth(p, a, theta, phi)
}

/// The luminance of the sample, scaled by [`UNIT`]: the surface normal
/// against a light that shines from above and from behind the viewer.
pub open spec fn luminance(a: Trig, b: Trig, theta: Trig, phi: Trig) -> int {
    phi.cos() * theta.cos() * b.sin() * ONE - a.cos() * theta.cos() * phi.sin() * ONE - a.sin()
        * theta.sin() * ONE * ONE + b.cos() * (a.cos() * theta.sin() * ONE - theta.cos()
        * a.sin() * phi.sin())
}

/// `UNIT` is the fourth power of `ONE`.
pub proof fn lemma_unit()
    ensures
        UNIT == sq(sq(ONE as int)),
        UNIT == ONE * ONE * ONE * ONE,
        sq(UNIT as int) == sq(sq(ONE as int)) * sq(sq(ONE as int)),
{
    assert(ONE == 1048576);
    assert(sq(1048576) == 1099511627776);
    assert(sq(1099511627776) == 1208925819614629174706176);
    assert(1048576 * 1048576 * 1048576 * 1048576 == 1208925819614629174706176int);
}

/// The cross-section stays within the reach of the torus.
proof fn lemma_circle_norm(p: Projection, theta: Trig)
    requires
        p.wf(),
        theta.wf(),
    ensures
        sq(circle_x(p, theta)) + sq(circle_y(p, theta)) <= sq(p.reach() * ONE),
{
    let one = ONE as int;
    let r1 = p.tube_radius() as int;
    let r2 = p.ring_radius() as int;
    let c = theta.cos() as int;
    let s = theta.sin() as int;
    theta.lemma_parts_bounded();
    let cx = circle_x(p, theta);
    let cy = circle_y(p, theta);
    let u = r2 * one;
    let v = r1 * c;
    assert(cx * cx == u * u + 2 * (u * v) + v * v) by (nonlinear_arith)
        requires
            cx == u + v,
    ;
    assert(u * v == (r1 * r2) * (one * c)) by (nonlinear_arith)
        requires
            u == r2 * one,
            v == r1 * c,
    ;
    lemma_sq_mul(r1, c);
    lemma_sq_mul(r1, s);
    assert(one * c <= one * one) by (nonlinear_arith)
        requires
            c <= one,
            one >= 0,
    ;
    assert(r1 * r2 >= 0) by (nonlinear_arith)
        requires
            r1 >= 0,
            r2 >= 0,
    ;
    lemma_mul_le(one * c, one * one, r1 * r2);
    assert(sq(r1) * sq(c) + sq(r1) * sq(s) == sq(r1) * (sq(c) + sq(s))) by (nonlinear_arith);
    lemma_sq_nonneg(r1);
    lemma_mul_le(sq(c) + sq(s), sq(one), sq(r1));
    assert(sq((r1 + r2) * one) == u * u + 2 * ((r1 * r2) * (one * one)) + sq(r1) * sq(one)) by {
        let t = (r1 + r2) * one;
        let w = r1 * one;
        assert(t == u + w) by (nonlinear_arith)
            requires
                t == (r1 + r2) * one,
                u == r2 * one,
                w == r1 * one,
        ;
        assert(t * t == u * u + 2 * (u * w) + w * w) by (nonlinear_arith)
            requires
                t == u + w,
        ;
        assert(u * w == (r1 * r2) * (one * one)) by (nonlinear_arith)
            requires
                u == r2 * one,
                w == r1 * one,
        ;
        lemma_sq_mul(r1, one);
    }
}

/// The turned sample lies within the reach of the torus from its centre:
/// the squares of its three distances from the centre add up to at most the
/// square of `reach`.
pub proof fn lemma_point_norm(p: Projection, a: Trig, b: Trig, theta: Trig, phi: Trig)
    requires
        p.wf(),
        a.wf(),
        b.wf(),
        theta.wf(),
        phi.wf(),
    ensures
        sq(point_x(p, a, b, theta, phi)) + sq(point_y(p, a, b, theta, phi)) + sq(
            point_depth(p, a, theta, phi),
        ) <= sq(p.reach() * UNIT),
{
    let one = ONE as int;
    let oo = sq(one);
    let reach = p.reach();
    let cx = circle_x(p, theta);
    let cy = circle_y(p, theta);
    let ca = a.cos() as int;
    let sa = a.sin() as int;
    let cb = b.cos() as int;
    let sb = b.sin() as int;
    let cp = phi.cos() as int;
    let sp = phi.sin() as int;
    lemma_unit();
    lemma_sq_nonneg(one);
    lemma_circle_norm(p, theta);
    // the sample before any turn: (pp, q, r), scaled by ONE * ONE
    let pp = cx * cp;
    let q = cy * one;
    let r = cx * sp;
    lemma_sq_mul(cx, cp);
    lemma_sq_mul(cy, one);
    lemma_sq_mul(cx, sp);
    lemma_sq_nonneg(cx);
    assert(sq(cx) * sq(cp) + sq(cx) * sq(sp) == sq(cx) * (sq(cp) + sq(sp))) by (nonlinear_arith);
    lemma_mul_le(sq(cp) + sq(sp), oo, sq(cx));
    assert(sq(cx) * oo + sq(cy) * oo == (sq(cx) + sq(cy)) * oo) by (nonlinear_arith);
    lemma_mul_le(sq(cx) + sq(cy), sq(reach * one), oo);
    assert(sq(pp) + sq(q) + sq(r) <= sq(reach * one) * oo);
    // turned by a: (q, r) becomes (qa, ra)
    let qa = ca * q - sa * r;
    let ra = sa * q + ca * r;
    lemma_turn_shrinks(ca, sa, q, r, one);
    // turned by b: (pp * ONE, qa) becomes (x, y)
    let po = pp * one;
    let x = cb * po - sb * qa;
    let y = sb * po + cb * qa;
    lemma_turn_shrinks(cb, sb, po, qa, one);
    lemma_sq_mul(pp, one);
    let d = ra * one;
    lemma_sq_mul(ra, one);
    assert(oo * (sq(po) + sq(qa)) + sq(d) == oo * (sq(pp) * oo) + oo * (sq(qa) + sq(ra)))
        by (nonlinear_arith)
        requires
            sq(po) == sq(pp) * oo,
            sq(d) == sq(ra) * oo,
    ;
    lemma_mul_le(sq(qa) + sq(ra), oo * (sq(q) + sq(r)), oo);
    assert(oo * (sq(pp) * oo) + oo * (oo * (sq(q) + sq(r))) == (oo * oo) * (sq(pp) + sq(q) + sq(r)))
        by (nonlinear_arith);
    assert(oo * oo >= 0) by (nonlinear_arith);
    lemma_mul_le(sq(pp) + sq(q) + sq(r), sq(reach * one) * oo, oo * oo);
    assert(sq(x) + sq(y) + sq(d) <= (oo * oo) * (sq(reach * one) * oo));
    assert((oo * oo) * (sq(reach * one) * oo) == sq(reach * UNIT)) by {
        lemma_sq_mul(reach * one, one);
        lemma_sq_mul(reach * one * one, one);
        lemma_sq_mul(reach * one * one * one, one);
        assert(reach * one * one * one * one == reach * UNIT) by (nonlinear_arith)
            requires
                UNIT == one * one * one * one,
        ;
        assert((oo * oo) * (sq(reach * one) * oo) == ((sq(reach * one) * oo) * oo) * oo)
            by (nonlinear_arith);
    }
    // back to the coordinates
    assert(x == point_x(p, a, b, theta, phi)) by {
        assert(cb * (cx * cp * one) == cx * (cb * cp * one)) by (nonlinear_arith);
        assert(sb * (ca * (cy * one)) == cy * ca * sb * one) by (nonlinear_arith);
        assert(sb * (sa * (cx * sp)) == cx * (sa * sb * sp)) by (nonlinear_arith);
        assert(sb * (ca * (cy * one) - sa * (cx * sp)) == sb * (ca * (cy * one)) - sb * (sa * (cx
            * sp))) by (nonlinear_arith);
        assert(cx * (cb * cp * one + sa * sb * sp) == cx * (cb * cp * one) + cx * (sa * sb * sp))
            by (nonlinear_arith);
    }
    assert(y == point_y(p, a, b, theta, phi)) by {
        assert(sb * (cx * cp * one) == cx * (sb * cp * one)) by (nonlinear_arith);
        assert(cb * (ca * (cy * one)) == cy * ca * cb * one) by (nonlinear_arith);
        assert(cb * (sa * (cx * sp)) == cx * (sa * cb * sp)) by (nonlinear_arith);
        assert(cb * (ca * (cy * one) - sa * (cx * sp)) == cb * (ca * (cy * one)) - cb * (sa * (cx
            * sp))) by (nonlinear_arith);
        assert(cx * (sb * cp * one - sa * cb * sp) == cx * (sb * cp * one) - cx * (sa * cb * sp))
            by (nonlinear_arith);
    }
    assert(d == point_depth(p, a, theta, phi)) by {
        assert((sa * (cy * one)) * one == cy * sa * one * one) by (nonlinear_arith);
        assert((ca * (cx * sp)) * one == ca * cx * sp * one) by (nonlinear_arith);
        assert((sa * (cy * one) + ca * (cx * sp)) * one == (sa * (cy * one)) * one + (ca * (cx
            * sp)) * one) by (nonlinear_arith);
    }
}

/// The turned sample is never further in front of or behind the centre of
/// the torus than the torus reaches, so it lies in front of the viewer:
/// `point_z` is the viewer's distance plus a part of magnitude at most
/// `reach`, and is at least one unit.
pub proof fn lemma_depth_within_reach(p: Projection, a: Trig, theta: Trig, phi: Trig)
    requires
        p.wf(),
        a.wf(),
        theta.wf(),
        phi.wf(),
    ensures
        -(p.reach() * UNIT) <= point_depth(p, a, theta, phi) <= p.reach() * UNIT,
        point_z(p, a, theta, phi) == p.viewer_offset() * UNIT + point_depth(p, a, theta, phi),
        (p.viewer_offset() - p.reach()) * UNIT <= point_z(p, a, theta, phi) <= (p.viewer_offset()
            + p.reach()) * UNIT,
        point_z(p, a, theta, phi) >= UNIT,
{
    let reach = p.reach();
    // the depth does not know the second turn: any will do
    lemma_point_norm(p, a, a, theta, phi);
    lemma_sq_nonneg(point_x(p, a, a, theta, phi));
    lemma_sq_nonneg(point_y(p, a, a, theta, phi));
    lemma_reach_unit(p);
    lemma_sq_bound(point_depth(p, a, theta, phi), reach * UNIT);
    assert((p.viewer_offset() - reach) * UNIT == p.viewer_offset() * UNIT - reach * UNIT)
        by (nonlinear_arith);
    assert((p.viewer_offset() + reach) * UNIT == p.viewer_offset() * UNIT + reach * UNIT)
        by (nonlinear_arith);
    assert((p.viewer_offset() - reach) * UNIT >= UNIT) by (nonlinear_arith)
        requires
            p.viewer_offset() - reach >= 1,
            UNIT > 0,
    ;
}

/// The turned sample is never further to the side of, above or below the
/// centre of the torus than the torus reaches.
pub proof fn lemma_point_within_reach(p: Projection, a: Trig, b: Trig, theta: Trig, phi: Trig)
    requires
        p.wf(),
        a.wf(),
        b.wf(),
        theta.wf(),
        phi.wf(),
    ensures
        -(p.reach() * UNIT) <= point_x(p, a, b, theta, phi) <= p.reach() * UNIT,
        -(p.reach() * UNIT) <= point_y(p, a, b, theta, phi) <= p.reach() * UNIT,
{
    lemma_point_norm(p, a, b, theta, phi);
    lemma_sq_nonneg(point_x(p, a, b, theta, phi));
    lemma_sq_nonneg(point_y(p, a, b, theta, phi));
    lemma_sq_nonneg(point_depth(p, a, theta, phi));
    lemma_reach_unit(p);
    lemma_sq_bound(point_x(p, a, b, theta, phi), p.reach() * UNIT);
    lemma_sq_bound(point_y(p, a, b, theta, phi), p.reach() * UNIT);
}

/// The reach of a torus is at least one unit and at most 254.
pub proof fn lemma_reach_unit(p: Projection)
    requires
        p.wf(),
    ensures
        UNIT <= p.reach() * UNIT <= 254 * UNIT,
        (p.viewer_offset() + p.reach()) * UNIT <= 509 * UNIT,
{
    assert(UNIT <= p.reach() * UNIT <= 254 * UNIT) by (nonlinear_arith)
        requires
            1 <= p.reach() <= 254,
            UNIT > 0,
    ;
    assert((p.viewer_offset() + p.reach()) * UNIT <= 509 * UNIT) by (nonlinear_arith)
        requires
            p.viewer_offset() + p.reach() <= 509,
            UNIT > 0,
    ;
}

/// The part of the turned surface normal that points up, scaled by
/// [`UNIT`].
pub open spec fn normal_y(a: Trig, b: Trig, theta: Trig, phi: Trig) -> int {
    b.sin() * (theta.cos() * phi.cos() * ONE) + b.cos() * (a.cos() * (theta.sin() * ONE) - a.sin()
        * (theta.cos() * phi.sin()))
}

/// The part of the turned surface normal that points away from the viewer,
/// scaled by [`UNIT`].
pub open spec fn normal_z(a: Trig, theta: Trig, phi: Trig) -> int {
    (a.sin() * (theta.sin() * ONE) + a.cos() * (theta.cos() * phi.sin())) * ONE
}

/// The luminance is the upward part of the turned normal less the part that
/// points away from the viewer.
pub proof fn lemma_luminance_is_normal_against_light(a: Trig, b: Trig, theta: Trig, phi: Trig)
    ensures
        luminance(a, b, theta, phi) == normal_y(a, b, theta, phi) - normal_z(a, theta, phi),
{
    let one = ONE as int;
    let ca = a.cos() as int;
    let sa = a.sin() as int;
    let cb = b.cos() as int;
    let sb = b.sin() as int;
    let ct = theta.cos() as int;
    let st = theta.sin() as int;
    let cp = phi.cos() as int;
    let sp = phi.sin() as int;
    assert(cp * ct * sb * one == sb * (ct * cp * one)) by (nonlinear_arith);
    assert(ca * st * one == ca * (st * one)) by (nonlinear_arith);
    assert(ct * sa * sp == sa * (ct * sp)) by (nonlinear_arith);
    assert(ca * ct * sp * one == (ca * (ct * sp)) * one) by (nonlinear_arith);
    assert(sa * st * one * one == (sa * (st * one)) * one) by (nonlinear_arith);
    assert((sa * (st * one) + ca * (ct * sp)) * one == (sa * (st * one)) * one + (ca * (ct * sp))
        * one) by (nonlinear_arith);
}

/// The turned normal is no longer than a unit vector: the squares of its two
/// parts that the light sees add up to at most the square of [`UNIT`].
proof fn lemma_normal_norm(a: Trig, b: Trig, theta: Trig, phi: Trig)
    requires
        a.wf(),
        b.wf(),
        theta.wf(),
        phi.wf(),
    ensures
        sq(normal_y(a, b, theta, phi)) + sq(normal_z(a, theta, phi)) <= sq(UNIT as int),
{
    let one = ONE as int;
    let ca = a.cos() as int;
    let sa = a.sin() as int;
    let cb = b.cos() as int;
    let sb = b.sin() as int;
    let ct = theta.cos() as int;
    let st = theta.sin() as int;
    let cp = phi.cos() as int;
    let sp = phi.sin() as int;
    let oo = sq(one);
    lemma_unit();
    lemma_sq_nonneg(one);
    // the normal before any turn: (p, q, r), scaled by ONE * ONE
    let p = ct * cp;
    let q = st * one;
    let r = ct * sp;
    lemma_sq_mul(ct, cp);
    lemma_sq_mul(st, one);
    lemma_sq_mul(ct, sp);
    lemma_sq_nonneg(ct);
    assert(sq(ct) * sq(cp) + sq(ct) * sq(sp) == sq(ct) * (sq(cp) + sq(sp))) by (nonlinear_arith);
    lemma_mul_le(sq(cp) + sq(sp), oo, sq(ct));
    assert(sq(ct) * oo + sq(st) * oo == (sq(ct) + sq(st)) * oo) by (nonlinear_arith);
    lemma_mul_le(sq(ct) + sq(st), oo, oo);
    assert(sq(p) + sq(q) + sq(r) <= oo * oo);
    // turned by a: (q, r) becomes (qa, ra)
    let qa = ca * q - sa * r;
    let ra = sa * q + ca * r;
    lemma_turn_shrinks(ca, sa, q, r, one);
    assert(sq(qa) + sq(ra) <= oo * (sq(q) + sq(r)));
    // turned by b: (p * ONE, qa) gives the upward part
    let po = p * one;
    let ny = sb * po + cb * qa;
    lemma_turn_shrinks(cb, sb, po, qa, one);
    assert(sq(ny) <= oo * (sq(po) + sq(qa)));
    lemma_sq_mul(p, one);
    let nz = ra * one;
    lemma_sq_mul(ra, one);
    assert(oo * (sq(po) + sq(qa)) + sq(nz) == oo * (sq(p) * oo) + oo * (sq(qa) + sq(ra)))
        by (nonlinear_arith)
        requires
            sq(po) == sq(p) * oo,
            sq(nz) == sq(ra) * oo,
    ;
    lemma_mul_le(sq(qa) + sq(ra), oo * (sq(q) + sq(r)), oo);
    assert(oo * (sq(p) * oo) + oo * (oo * (sq(q) + sq(r))) == (oo * oo) * (sq(p) + sq(q) + sq(r)))
        by (nonlinear_arith);
    assert(oo * oo >= 0) by (nonlinear_arith);
    lemma_mul_le(sq(p) + sq(q) + sq(r), oo * oo, oo * oo);
    assert(sq(ny) + sq(nz) <= (oo * oo) * (oo * oo));
    assert(ny == normal_y(a, b, theta, phi));
    assert(nz == normal_z(a, theta, phi));
}

/// The luminance never leaves the range from minus the square root of two
/// to the square root of two: its square is at most twice the square of
/// [`UNIT`].
pub proof fn lemma_luminance_bounded(a: Trig, b: Trig, theta: Trig, phi: Trig)
    requires
        a.wf(),
        b.wf(),
        theta.wf(),
        phi.wf(),
    ensures
        sq(luminance(a, b, theta, phi)) <= 2 * sq(UNIT as int),
        2 * luminance(a, b, theta, phi) < 3 * UNIT,
        2 * luminance(a, b, theta, phi) > -3 * UNIT,
{
    let l = luminance(a, b, theta, phi);
    let ny = normal_y(a, b, theta, phi);
    let nz = normal_z(a, theta, phi);
    lemma_luminance_is_normal_against_light(a, b, theta, phi);
    lemma_normal_norm(a, b, theta, phi);
    assert((ny - nz) * (ny - nz) + (ny + nz) * (ny + nz) == 2 * (ny * ny) + 2 * (nz * nz))
        by (nonlinear_arith);
    lemma_sq_nonneg(ny + nz);
    assert(sq(l) <= 2 * sq(UNIT as int));
    let u = UNIT as int;
    assert(sq(2 * l) == 4 * sq(l)) by (nonlinear_arith);
    assert(sq(3 * u) == 9 * sq(u)) by (nonlinear_arith);
    lemma_sq_nonneg(u);
    lemma_sq_bound(2 * l, 3 * u);
    assert(sq(u) > 0) by (nonlinear_arith)
        requires
            u > 0,
    ;
    if 2 * l == 3 * u || 2 * l == -3 * u {
        assert(sq(2 * l) == sq(3 * u)) by (nonlinear_arith)
            requires
                2 * l == 3 * u || 2 * l == -3 * u,
        ;
    }
}

/// A point in space, each coordinate scaled by [`UNIT`].
#[derive(Clone, Copy, Debug, PartialEq, Eq)]
pub struct Point {
    pub x: i128,
    pub y: i128,
    pub z: i128,
}

/// The turned sample as a point in space.
pub open spec fn point_at(p: Projection, a: Trig, b: Trig, theta: Trig, phi: Trig) -> Point {
    Point {
        x: point_x(p, a, b, theta, phi) as i128,
        y: point_y(p, a, b, theta, phi) as i128,
        z: point_z(p, a, theta, phi) as i128,
    }
}

/// Where the sample `(theta, phi)` of the surface lies once the torus is
/// turned by `a` and `b` and set before the viewer.
pub fn surface_point(p: &Projection, a: &Trig, b: &Trig, theta: &Trig, phi: &Trig) -> (r: Point)
    ensures
        r == point_at(*p, *a, *b, *theta, *phi),
        r.x == point_x(*p, *a, *b, *theta, *phi),
        r.y == point_y(*p, *a, *b, *theta, *phi),
        r.z == point_z(*p, *a, *theta, *phi),
{
    proof {
        use_type_invariant(p);
        use_type_invariant(a);
        use_type_invariant(b);
        use_type_invariant(theta);
        use_type_invariant(phi);
        lemma_unit();
        lemma_depth_within_reach(*p, *a, *theta, *phi);
        lemma_point_within_reach(*p, *a, *b, *theta, *phi);
        lemma_reach_unit(*p);
    }
    let ghost o1 = ONE as int;
    let ghost o2 = ONE * ONE;
    let ghost o3 = ONE * ONE * ONE;
    let one: i128 = ONE as i128;
    let ca: i128 = a.cos() as i128;
    let sa: i128 = a.sin() as i128;
    let cb: i128 = b.cos() as i128;
    let sb: i128 = b.sin() as i128;
    let ct: i128 = theta.cos() as i128;
    let st: i128 = theta.sin() as i128;
    let cp: i128 = phi.cos() as i128;
    let sp: i128 = phi.sin() as i128;
    let r1: i128 = p.tube_radius() as i128;
    let r2: i128 = p.ring_radius() as i128;
    let k2: i128 = p.viewer_offset() as i128;

    let cx: i128 = mul_i128(r2, one, Ghost(255), Ghost(o1)) + mul_i128(
        r1,
        ct,
        Ghost(255),
        Ghost(o1),
    );
    let cy: i128 = mul_i128(r1, st, Ghost(255), Ghost(o1));
    let ghost bc = 510 * o1;

    let x_turn: i128 = mul_i128(mul_i128(cb, cp, Ghost(o1), Ghost(o1)), one, Ghost(o2), Ghost(o1))
        + mul_i128(mul_i128(sa, sb, Ghost(o1), Ghost(o1)), sp, Ghost(o2), Ghost(o1));
    let x_lift: i128 = mul_i128(
        mul_i128(mul_i128(cy, ca, Ghost(bc), Ghost(o1)), sb, Ghost(bc * o1), Ghost(o1)),
        one,
        Ghost(bc * o2),
        Ghost(o1),
    );
    let x: i128 = mul_i128(cx, x_turn, Ghost(bc), Ghost(2 * o3)) - x_lift;

    let y_turn: i128 = mul_i128(mul_i128(sb, cp, Ghost(o1), Ghost(o1)), one, Ghost(o2), Ghost(o1))
        - mul_i128(mul_i128(sa, cb, Ghost(o1), Ghost(o1)), sp, Ghost(o2), Ghost(o1));
    let y_lift: i128 = mul_i128(
        mul_i128(mul_i128(cy, ca, Ghost(bc), Ghost(o1)), cb, Ghost(bc * o1), Ghost(o1)),
        one,
        Ghost(bc * o2),
        Ghost(o1),
    );
    let y: i128 = mul_i128(cx, y_turn, Ghost(bc), Ghost(2 * o3)) + y_lift;

    let z_sweep: i128 = mul_i128(
        mul_i128(mul_i128(ca, cx, Ghost(o1), Ghost(bc)), sp, Ghost(o1 * bc), Ghost(o1)),
        one,
        Ghost(o1 * bc * o1),
        Ghost(o1),
    );
    let z_lift: i128 = mul_i128(
        mul_i128(mul_i128(cy, sa, Ghost(bc), Ghost(o1)), one, Ghost(bc * o1), Ghost(o1)),
        one,
        Ghost(bc * o2),
        Ghost(o1),
    );
    let z: i128 = mul_i128(k2, UNIT, Ghost(255), Ghost(UNIT as int)) + (z_sweep + z_lift);
    Point { x, y, z }
}

/// How brightly the sample `(theta, phi)` is lit once the torus is turned by
/// `a` and `b`.
pub fn surface_luminance(a: &Trig, b: &Trig, theta: &Trig, phi: &Trig) -> (l: i128)
    ensures
        l == luminance(*a, *b, *theta, *phi),
{
    proof {
        use_type_invariant(a);
        use_type_invariant(b);
        use_type_invariant(theta);
        use_type_invariant(phi);
        lemma_unit();
    }
    let ghost o1 = ONE as int;
    let ghost o2 = ONE * ONE;
    let ghost o3 = ONE * ONE * ONE;
    let one: i128 = ONE as i128;
    let ca: i128 = a.cos() as i128;
    let sa: i128 = a.sin() as i128;
    let cb: i128 = b.cos() as i128;
    let sb: i128 = b.sin() as i128;
    let ct: i128 = theta.cos() as i128;
    let st: i128 = theta.sin() as i128;
    let cp: i128 = phi.cos() as i128;
    let sp: i128 = phi.sin() as i128;

    let t1: i128 = mul_i128(
        mul_i128(mul_i128(cp, ct, Ghost(o1), Ghost(o1)), sb, Ghost(o2), Ghost(o1)),
        one,
        Ghost(o3),
        Ghost(o1),
    );
    let t2: i128 = mul_i128(
        mul_i128(mul_i128(ca, ct, Ghost(o1), Ghost(o1)), sp, Ghost(o2), Ghost(o1)),
        one,
        Ghost(o3),
        Ghost(o1),
    );
    let t3: i128 = mul_i128(
        mul_i128(mul_i128(sa, st, Ghost(o1), Ghost(o1)), one, Ghost(o2), Ghost(o1)),
        one,
        Ghost(o3),
        Ghost(o1),
    );
    let inner: i128 = mul_i128(mul_i128(ca, st, Ghost(o1), Ghost(o1)), one, Ghost(o2), Ghost(o1))
        - mul_i128(mul_i128(ct, sa, Ghost(o1), Ghost(o1)), sp, Ghost(o2), Ghost(o1));
    let t4: i128 = mul_i128(cb, inner, Ghost(o1), Ghost(2 * o3));
    t1 - t2 - t3 + t4
}

} // verus!
