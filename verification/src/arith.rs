//! Integer arithmetic shared by the geometry: products with proved
//! magnitudes, division that rounds down, and the inequalities on sums of
//! squares from which every bound on a rotated vector follows.

use vstd::prelude::*;

verus! {

/// The square of an integer.
pub open spec fn sq(x: int) -> int {
    x * x
}

/// Squares are never negative.
pub proof fn lemma_sq_nonneg(x: int)
    ensures
        sq(x) >= 0,
{
    assert(x * x >= 0) by (nonlinear_arith);
}

/// A number whose square is at most `m * m` lies within `m` of zero.
pub proof fn lemma_sq_bound(x: int, m: int)
    requires
        m >= 0,
        sq(x) <= sq(m),
    ensures
        -m <= x <= m,
{
    assert(-m <= x <= m) by (nonlinear_arith)
        requires
            m >= 0,
            x * x <= m * m,
    ;
}

/// Squaring keeps the order of magnitudes.
pub proof fn lemma_sq_monotone(x: int, m: int)
    requires
        -m <= x <= m,
    ensures
        sq(x) <= sq(m),
{
    assert(x * x <= m * m) by (nonlinear_arith)
        requires
            -m <= x <= m,
    ;
}

/// The square of a product is the product of the squares.
pub proof fn lemma_sq_mul(x: int, y: int)
    ensures
        sq(x * y) == sq(x) * sq(y),
{
    assert((x * y) * (x * y) == (x * x) * (y * y)) by (nonlinear_arith);
}

/// A product is bounded by the product of the bounds of its factors.
pub proof fn lemma_mul_bound(x: int, bx: int, y: int, by: int)
    requires
        -bx <= x <= bx,
        -by <= y <= by,
    ensures
        -(bx * by) <= x * y <= bx * by,
{
    assert(-(bx * by) <= x * y <= bx * by) by (nonlinear_arith)
        requires
            -bx <= x <= bx,
            -by <= y <= by,
    ;
}

/// Multiplying both sides of an inequality by a factor that is not negative
/// keeps it.
pub proof fn lemma_mul_le(x: int, y: int, k: int)
    requires
        x <= y,
        k >= 0,
    ensures
        k * x <= k * y,
        x * k <= y * k,
{
    assert(k * x <= k * y && x * k <= y * k) by (nonlinear_arith)
        requires
            x <= y,
            k >= 0,
    ;
}

/// Turning the pair `(u, v)` by the pair `(c, s)` scales the sum of its
/// squares by the sum of the squares of `c` and `s`.
pub proof fn lemma_turn_norm(c: int, s: int, u: int, v: int)
    ensures
        sq(c * u - s * v) + sq(s * u + c * v) == (sq(c) + sq(s)) * (sq(u) + sq(v)),
{
    let p = c * u;
    let q = s * v;
    let r = s * u;
    let t = c * v;
    assert((p - q) * (p - q) == p * p - 2 * (p * q) + q * q) by (nonlinear_arith);
    assert((r + t) * (r + t) == r * r + 2 * (r * t) + t * t) by (nonlinear_arith);
    assert(p * q == r * t) by (nonlinear_arith)
        requires
            p == c * u,
            q == s * v,
            r == s * u,
            t == c * v,
    ;
    lemma_sq_mul(c, u);
    lemma_sq_mul(s, v);
    lemma_sq_mul(s, u);
    lemma_sq_mul(c, v);
    let cc = sq(c);
    let ss = sq(s);
    let uu = sq(u);
    let vv = sq(v);
    assert((cc + ss) * (uu + vv) == cc * uu + cc * vv + ss * uu + ss * vv) by (nonlinear_arith);
}

/// A pair turned by a pair `(c, s)` with `c * c + s * s <= one * one` has a
/// sum of squares of at most `one * one` times that of the pair it came from.
pub proof fn lemma_turn_shrinks(c: int, s: int, u: int, v: int, one: int)
    requires
        sq(c) + sq(s) <= sq(one),
    ensures
        sq(c * u - s * v) + sq(s * u + c * v) <= sq(one) * (sq(u) + sq(v)),
        sq(c * u - s * v) <= sq(one) * (sq(u) + sq(v)),
        sq(s * u + c * v) <= sq(one) * (sq(u) + sq(v)),
{
    lemma_turn_norm(c, s, u, v);
    lemma_sq_nonneg(u);
    lemma_sq_nonneg(v);
    lemma_sq_nonneg(c * u - s * v);
    lemma_sq_nonneg(s * u + c * v);
    lemma_mul_le(sq(c) + sq(s), sq(one), sq(u) + sq(v));
}

/// The product of two `i128` values whose magnitudes are known to be small
/// enough for the product to fit.
pub(crate) fn mul_i128(x: i128, y: i128, Ghost(bx): Ghost<int>, Ghost(by): Ghost<int>) -> (r: i128)
    requires
        -bx <= x <= bx,
        -by <= y <= by,
        bx * by <= i128::MAX,
    ensures
        r == x * y,
        -(bx * by) <= r <= bx * by,
{
    proof {
        lemma_mul_bound(x as int, bx, y as int, by);
    }
    x * y
}

/// The quotient of `n` by a positive `d`, rounded down.
pub(crate) fn floor_div(n: i128, d: i128) -> (q: i128)
    requires
        d > 0,
        n > i128::MIN,
    ensures
        q == n / d,
{
    if n >= 0 {
        n / d
    } else {
        let m: i128 = -n;
        let t: i128 = m / d;
        let r: i128 = m % d;
        proof {
            let mi = m as int;
            let di = d as int;
            vstd::arithmetic::div_mod::lemma_fundamental_div_mod(mi, di);
            vstd::arithmetic::div_mod::lemma_mod_bound(mi, di);
            vstd::arithmetic::div_mod::lemma_div_pos_is_pos(mi, di);
            vstd::arithmetic::div_mod::lemma_div_is_ordered_by_denominator(mi, 1, di);
            vstd::arithmetic::div_mod::lemma_div_basics_2(mi);
            if r == 0 {
                assert(n as int == di * (-t)) by (nonlinear_arith)
                    requires
                        mi == di * (t as int),
                        n as int == -mi,
                ;
                vstd::arithmetic::div_mod::lemma_fundamental_div_mod_converse_div(
                    n as int,
                    di,
                    -(t as int),
                    0,
                );
            } else {
                assert(n as int == di * (-(t as int) - 1) + (di - r as int)) by (nonlinear_arith)
                    requires
                        mi == di * (t as int) + r as int,
                        n as int == -mi,
                ;
                vstd::arithmetic::div_mod::lemma_fundamental_div_mod_converse_div(
                    n as int,
                    di,
                    -(t as int) - 1,
                    di - r as int,
                );
            }
        }
        if r == 0 {
            -t
        } else {
            -t - 1
        }
    }
}

} // verus!
