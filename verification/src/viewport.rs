//! When all of the torus is seen: a viewer who stands far enough away has
//! every sample fall on the screen.

use vstd::prelude::*;
use crate::arith::{lemma_mul_le, lemma_sq_mul, lemma_sq_nonneg, sq};
use crate::projection::Projection;
use crate::sample::{screen_col, screen_row};
use crate::surface::{
    lemma_depth_within_reach,
    lemma_point_norm,
    point_depth,
    point_x,
    point_y,
    point_z,
    UNIT,
};
use crate::trig::Trig;

verus! {

/// Whether the viewer stands far enough from the torus to see all of it on
/// a screen that is at least as high as it is wide: the viewer's distance
/// is more than four times the reach over the square root of seven, about
/// one and a half times the reach.
pub open spec fn in_full_view(p: Projection) -> bool {
    16 * sq(p.reach()) < 7 * sq(p.viewer_offset() as int)
}

/// A number whose square is less than that of a positive `m` lies strictly
/// within `m` of zero.
proof fn lemma_sq_strict_bound(x: int, m: int)
    requires
        m > 0,
        sq(x) < sq(m),
    ensures
        -m < x < m,
{
    assert(-m < x < m) by (nonlinear_arith)
        requires
            m > 0,
            x * x < m * m,
    ;
}

/// Seen from `k` away, with `16 * r * r < 7 * k * k`, a point within `r` of
/// the centre lies less than `4 * r / (3 * k)` times its distance to the
/// side of the viewer. The point is `x` to the side and `d` behind the
/// centre, in units of `1 / u`.
proof fn lemma_sight(r: int, k: int, u: int, x: int, d: int)
    requires
        r >= 1,
        k >= 1,
        u >= 1,
        16 * sq(r) < 7 * sq(k),
        sq(x) + sq(d) <= sq(r * u),
        k * u + d > 0,
    ensures
        -(4 * r * (k * u + d)) < 3 * k * x < 4 * r * (k * u + d),
{
    let r2 = r * r;
    let k2 = k * k;
    let uu = u * u;
    let dd = d * d;
    let ud = u * d;
    let xx = x * x;
    let z = k * u + d;
    let zz = z * z;
    let alpha = 16 * r2 + 9 * k2;
    let a1 = r2 * k2;
    let b1 = r2 * k;
    let f = 16 * (r2 * zz) - 9 * (k2 * (r2 * uu - dd));
    lemma_sq_nonneg(r);
    lemma_sq_nonneg(k);
    lemma_sq_nonneg(u);
    lemma_sq_nonneg(d);
    lemma_sq_mul(r, u);
    assert(r2 >= 1 && k2 >= 1 && uu >= 1) by (nonlinear_arith)
        requires
            r >= 1,
            k >= 1,
            u >= 1,
            r2 == r * r,
            k2 == k * k,
            uu == u * u,
    ;
    assert(zz == k2 * uu + 2 * (k * ud) + dd) by (nonlinear_arith)
        requires
            z == k * u + d,
            zz == z * z,
            k2 == k * k,
            uu == u * u,
            ud == u * d,
            dd == d * d,
    ;
    assert(r2 * zz == a1 * uu + 2 * (b1 * ud) + r2 * dd) by (nonlinear_arith)
        requires
            zz == k2 * uu + 2 * (k * ud) + dd,
            a1 == r2 * k2,
            b1 == r2 * k,
    ;
    assert(k2 * (r2 * uu - dd) == a1 * uu - k2 * dd) by (nonlinear_arith)
        requires
            a1 == r2 * k2,
    ;
    assert(f == 7 * (a1 * uu) + 32 * (b1 * ud) + alpha * dd) by (nonlinear_arith)
        requires
            f == 16 * (r2 * zz) - 9 * (k2 * (r2 * uu - dd)),
            r2 * zz == a1 * uu + 2 * (b1 * ud) + r2 * dd,
            k2 * (r2 * uu - dd) == a1 * uu - k2 * dd,
            alpha == 16 * r2 + 9 * k2,
    ;
    // alpha * f is a square plus a positive part
    let g = alpha * d + 16 * (b1 * u);
    assert(g * g == alpha * (alpha * dd) + 32 * (alpha * (b1 * ud)) + 256 * ((b1 * b1) * uu)) by {
        let s = alpha * d;
        let t = b1 * u;
        assert(g * g == s * s + 32 * (s * t) + 256 * (t * t)) by (nonlinear_arith)
            requires
                g == s + 16 * t,
        ;
        assert(s * s == alpha * (alpha * dd)) by (nonlinear_arith)
            requires
                s == alpha * d,
                dd == d * d,
        ;
        assert(s * t == alpha * (b1 * ud)) by (nonlinear_arith)
            requires
                s == alpha * d,
                t == b1 * u,
                ud == u * d,
        ;
        assert(t * t == (b1 * b1) * uu) by (nonlinear_arith)
            requires
                t == b1 * u,
                uu == u * u,
        ;
    }
    assert(b1 * b1 == r2 * a1) by (nonlinear_arith)
        requires
            b1 == r2 * k,
            a1 == r2 * (k * k),
    ;
    assert(alpha * f == alpha * (alpha * dd) + 32 * (alpha * (b1 * ud)) + 7 * (alpha * (a1 * uu)))
        by (nonlinear_arith)
        requires
            f == 7 * (a1 * uu) + 32 * (b1 * ud) + alpha * dd,
    ;
    let rest = 7 * k2 - 16 * r2;
    assert(7 * (alpha * (a1 * uu)) - 256 * ((r2 * a1) * uu) == 9 * (rest * (a1 * uu)))
        by (nonlinear_arith)
        requires
            alpha == 16 * r2 + 9 * k2,
            rest == 7 * k2 - 16 * r2,
    ;
    assert(rest * (a1 * uu) > 0) by (nonlinear_arith)
        requires
            rest > 0,
            a1 == r2 * k2,
            r2 >= 1,
            k2 >= 1,
            uu >= 1,
    ;
    lemma_sq_nonneg(g);
    assert(alpha * f > 0);
    assert(f > 0) by (nonlinear_arith)
        requires
            alpha * f > 0,
            alpha > 0,
    ;
    // so the point lies within the cone of sight
    lemma_mul_le(xx, r2 * uu - dd, k2);
    assert(sq(3 * k * x) == 9 * (k2 * xx)) by (nonlinear_arith)
        requires
            k2 == k * k,
            xx == x * x,
    ;
    assert(sq(4 * r * z) == 16 * (r2 * zz)) by (nonlinear_arith)
        requires
            r2 == r * r,
            zz == z * z,
    ;
    assert(4 * r * z > 0) by (nonlinear_arith)
        requires
            r >= 1,
            z > 0,
    ;
    lemma_sq_strict_bound(3 * k * x, 4 * r * z);
}

/// Seen by a viewer who stands far enough away, every sample of the turned
/// torus falls on the screen, if the screen is at least as high as it is
/// wide.
pub proof fn lemma_torus_in_full_view(
    p: Projection,
    width: int,
    height: int,
    a: Trig,
    b: Trig,
    theta: Trig,
    phi: Trig,
)
    requires
        p.wf(),
        a.wf(),
        b.wf(),
        theta.wf(),
        phi.wf(),
        in_full_view(p),
        1 <= width <= height,
    ensures
        0 <= screen_col(p, width, point_x(p, a, b, theta, phi), point_z(p, a, theta, phi)) < width,
        0 <= screen_row(
            p,
            width,
            height,
            point_y(p, a, b, theta, phi),
            point_z(p, a, theta, phi),
        ) < height,
{
    let r = p.reach();
    let k = p.viewer_offset() as int;
    let u = UNIT as int;
    let x = point_x(p, a, b, theta, phi);
    let y = point_y(p, a, b, theta, phi);
    let d = point_depth(p, a, theta, phi);
    let z = point_z(p, a, theta, phi);
    lemma_point_norm(p, a, b, theta, phi);
    lemma_depth_within_reach(p, a, theta, phi);
    lemma_sq_nonneg(x);
    lemma_sq_nonneg(y);
    lemma_sight(r, k, u, x, d);
    lemma_sight(r, k, u, y, d);
    let half = 4 * r * z;
    let den = 8 * r * z;
    assert(half > 0 && den == 2 * half) by (nonlinear_arith)
        requires
            half == 4 * r * z,
            den == 8 * r * z,
            r >= 1,
            z > 0,
    ;
    // the column
    let side = 3 * k * x;
    let n = width * (half + side);
    assert(0 <= n < width * den) by (nonlinear_arith)
        requires
            n == width * (half + side),
            -half < side < half,
            den == 2 * half,
            width >= 1,
    ;
    vstd::arithmetic::div_mod::lemma_div_pos_is_pos(n, den);
    vstd::arithmetic::div_mod::lemma_multiply_divide_lt(n, den, width);
    assert(width * den == den * width) by (nonlinear_arith);
    // the row
    let up = 3 * k * y;
    let m = 4 * r * height * z - 3 * width * k * y;
    assert(m == height * half - width * up) by (nonlinear_arith)
        requires
            m == 4 * r * height * z - 3 * width * k * y,
            half == 4 * r * z,
            up == 3 * k * y,
    ;
    assert(0 <= m < height * den) by (nonlinear_arith)
        requires
            m == height * half - width * up,
            -half < up < half,
            den == 2 * half,
            1 <= width <= height,
    ;
    vstd::arithmetic::div_mod::lemma_div_pos_is_pos(m, den);
    vstd::arithmetic::div_mod::lemma_multiply_divide_lt(m, den, height);
    assert(height * den == den * height) by (nonlinear_arith);
}

/// The standard scene is in full view.
pub proof fn lemma_standard_in_full_view(p: Projection)
    requires
        p.tube_radius() == 1,
        p.ring_radius() == 2,
        p.viewer_offset() == 5,
    ensures
        p.wf(),
        in_full_view(p),
{
}

} // verus!
