//! From a point in space to a sample on the screen.
//!
//! The viewer looks down the z-axis at a screen of `width` by `height`
//! cells. A point is moved towards the middle of the screen the further
//! away it is, and the scale is chosen so that a torus seen from the side
//! spans three quarters of the screen's width.

use vstd::prelude::*;
use crate::arith::{floor_div, mul_i128};
use crate::projection::Projection;
use crate::surface::{
    lemma_depth_within_reach,
    lemma_point_within_reach,
    lemma_reach_unit,
    lemma_unit,
    luminance,
    point_x,
    point_y,
    point_z,
    surface_luminance,
    surface_point,
    Point,
    UNIT,
};
use crate::trig::Trig;
use crate::viewport::{in_full_view, lemma_torus_in_full_view};

verus! {

/// The inverse depth of a point one unit of length from the viewer.
pub const DEPTH_ONE: u64 = 1099511627776;

/// [`DEPTH_ONE`] times [`UNIT`].
pub const DEPTH_UNIT: i128 = 1329227995784915872903807060280344576;

/// One sample of the surface as the screen sees it: the cell it falls on,
/// how near it is, and how brightly it is lit.
#[derive(Clone, Copy, Debug, PartialEq, Eq)]
pub struct Sample {
    /// The row of the cell, counted down from the top of the screen.
    pub row: i64,
    /// The column of the cell, counted from the left.
    pub col: i64,
    /// One over the distance from the viewer, scaled by [`DEPTH_ONE`] and
    /// rounded down. The nearer sample has the greater inverse depth.
    pub inverse_depth: u64,
    /// The luminance, scaled by [`UNIT`].
    pub luminance: i128,
}

/// The denominator over which the cell of a point at distance `z` is
/// written: `8 * reach * z`.
pub open spec fn screen_den(p: Projection, z: int) -> int {
    8 * p.reach() * z
}

/// The column of a point over [`screen_den`], before it is rounded down.
pub open spec fn col_num(p: Projection, width: int, x: int, z: int) -> int {
    width * (4 * p.reach() * z + 3 * p.viewer_offset() * x)
}

/// The row of a point over [`screen_den`], before it is rounded down.
pub open spec fn row_num(p: Projection, width: int, height: int, y: int, z: int) -> int {
    4 * p.reach() * height * z - 3 * width * p.viewer_offset() * y
}

/// The column on which a point falls whose x and z coordinates, scaled by
/// [`UNIT`], are `x` and `z`.
///
/// This is `width / 2 + k * x / z`, rounded down, with the scale
/// `k = 3 * width * viewer_offset / (8 * reach)`, written over the common
/// denominator `8 * reach * z`.
pub open spec fn screen_col(p: Projection, width: int, x: int, z: int) -> int {
    col_num(p, width, x, z) / screen_den(p, z)
}

/// The row on which a point falls whose y and z coordinates, scaled by
/// [`UNIT`], are `y` and `z`.
///
/// This is `height / 2 - k * y / z`, rounded down, with the scale `k` of
/// [`screen_col`]: rows are counted downwards, y upwards.
pub open spec fn screen_row(p: Projection, width: int, height: int, y: int, z: int) -> int {
    row_num(p, width, height, y, z) / screen_den(p, z)
}

/// One over the distance `z`, scaled by [`DEPTH_ONE`] and rounded down; `z`
/// is scaled by [`UNIT`].
pub open spec fn inverse_depth(z: int) -> int {
    (DEPTH_UNIT as int) / z
}

/// The sample `(theta, phi)` of the torus turned by `a` and `b`, as a screen
/// of `width` by `height` cells sees it.
pub open spec fn sample_at(
    p: Projection,
    width: int,
    height: int,
    a: Trig,
    b: Trig,
    theta: Trig,
    phi: Trig,
) -> Sample {
    Sample {
        row: screen_row(
            p,
            width,
            height,
            point_y(p, a, b, theta, phi),
            point_z(p, a, theta, phi),
        ) as i64,
        col: screen_col(p, width, point_x(p, a, b, theta, phi), point_z(p, a, theta, phi)) as i64,
        inverse_depth: inverse_depth(point_z(p, a, theta, phi)) as u64,
        luminance: luminance(a, b, theta, phi) as i128,
    }
}

/// A quotient is bounded by `b` when its numerator is bounded by `b` times
/// its denominator.
proof fn lemma_div_bound(n: int, d: int, b: int)
    requires
        d > 0,
        -(b * d) <= n <= b * d,
    ensures
        -b <= n / d <= b,
{
    vstd::arithmetic::div_mod::lemma_div_is_ordered(n, b * d, d);
    vstd::arithmetic::div_mod::lemma_div_is_ordered(-(b * d), n, d);
    vstd::arithmetic::div_mod::lemma_div_multiples_vanish(b, d);
    vstd::arithmetic::div_mod::lemma_div_multiples_vanish(-b, d);
    assert((-b) * d == -(b * d)) by (nonlinear_arith);
    assert(b * d == d * b && (-b) * d == d * (-b)) by (nonlinear_arith);
}

/// A point in front of the viewer and within the reach of the torus falls
/// on a cell whose column is within `width * viewer_offset` of zero, and
/// whose row is within `(width + height) * viewer_offset`.
pub proof fn lemma_cell_bounded(p: Projection, width: int, height: int, x: int, y: int, z: int)
    requires
        p.wf(),
        width >= 0,
        height >= 0,
        z >= UNIT,
        -(p.reach() * UNIT) <= x <= p.reach() * UNIT,
        -(p.reach() * UNIT) <= y <= p.reach() * UNIT,
    ensures
        screen_den(p, z) >= 8 * UNIT,
        -(width * p.viewer_offset()) <= screen_col(p, width, x, z) <= width * p.viewer_offset(),
        -((width + height) * p.viewer_offset()) <= screen_row(p, width, height, y, z) <= (width
            + height) * p.viewer_offset(),
{
    let r = p.reach();
    let k = p.viewer_offset() as int;
    let u = UNIT as int;
    let den = screen_den(p, z);
    let rz = r * z;
    assert(rz >= r * u && r * u >= u) by (nonlinear_arith)
        requires
            rz == r * z,
            r >= 1,
            z >= u,
            u >= 1,
    ;
    assert(den == 8 * rz) by (nonlinear_arith)
        requires
            den == 8 * r * z,
            rz == r * z,
    ;
    // either coordinate, times the viewer's distance, is within k * r * z
    let krz = k * rz;
    assert(krz >= rz) by (nonlinear_arith)
        requires
            krz == k * rz,
            k >= 1,
            rz >= 0,
    ;
    assert(-krz <= k * x <= krz && -krz <= k * y <= krz) by (nonlinear_arith)
        requires
            krz == k * rz,
            -(r * u) <= x <= r * u,
            -(r * u) <= y <= r * u,
            r * u <= rz,
            k >= 1,
    ;
    // the column
    let nx = col_num(p, width, x, z);
    let bx = width * k;
    assert(nx == width * (4 * rz + 3 * (k * x))) by (nonlinear_arith)
        requires
            nx == width * (4 * r * z + 3 * k * x),
            rz == r * z,
    ;
    assert(bx * den == width * (8 * krz)) by (nonlinear_arith)
        requires
            bx == width * k,
            den == 8 * rz,
            krz == k * rz,
    ;
    assert(-(bx * den) <= nx <= bx * den) by (nonlinear_arith)
        requires
            nx == width * (4 * rz + 3 * (k * x)),
            bx * den == width * (8 * krz),
            -krz <= k * x <= krz,
            0 <= rz <= krz,
            width >= 0,
    ;
    lemma_div_bound(nx, den, bx);
    // the row
    let ny = row_num(p, width, height, y, z);
    let by = (width + height) * k;
    assert(ny == height * (4 * rz) - width * (3 * (k * y))) by (nonlinear_arith)
        requires
            ny == 4 * r * height * z - 3 * width * k * y,
            rz == r * z,
    ;
    assert(by * den == width * (8 * krz) + height * (8 * krz)) by (nonlinear_arith)
        requires
            by == (width + height) * k,
            den == 8 * rz,
            krz == k * rz,
    ;
    assert(-(by * den) <= ny <= by * den) by (nonlinear_arith)
        requires
            ny == height * (4 * rz) - width * (3 * (k * y)),
            by * den == width * (8 * krz) + height * (8 * krz),
            -krz <= k * y <= krz,
            0 <= rz <= krz,
            width >= 0,
            height >= 0,
    ;
    lemma_div_bound(ny, den, by);
}

/// On a screen of at most 65535 by 65535 cells, the sample of a turned
/// torus is what its parts say: the row, the column, the inverse depth and
/// the luminance all fit their types.
pub proof fn lemma_sample_at(
    p: Projection,
    width: int,
    height: int,
    a: Trig,
    b: Trig,
    theta: Trig,
    phi: Trig,
)
    requires
        p.wf(),
        a.wf(),
        b.wf(),
        theta.wf(),
        phi.wf(),
        0 <= width <= 65535,
        0 <= height <= 65535,
    ensures
        sample_at(p, width, height, a, b, theta, phi).row == screen_row(
            p,
            width,
            height,
            point_y(p, a, b, theta, phi),
            point_z(p, a, theta, phi),
        ),
        sample_at(p, width, height, a, b, theta, phi).col == screen_col(
            p,
            width,
            point_x(p, a, b, theta, phi),
            point_z(p, a, theta, phi),
        ),
        sample_at(p, width, height, a, b, theta, phi).inverse_depth == inverse_depth(
            point_z(p, a, theta, phi),
        ),
        sample_at(p, width, height, a, b, theta, phi).luminance == luminance(a, b, theta, phi),
        1 <= sample_at(p, width, height, a, b, theta, phi).inverse_depth <= DEPTH_ONE,
{
    let x = point_x(p, a, b, theta, phi);
    let y = point_y(p, a, b, theta, phi);
    let z = point_z(p, a, theta, phi);
    lemma_unit();
    lemma_depth_within_reach(p, a, theta, phi);
    lemma_point_within_reach(p, a, b, theta, phi);
    lemma_reach_unit(p);
    lemma_cell_bounded(p, width, height, x, y, z);
    assert(width * p.viewer_offset() <= 65535 * 255 && (width + height) * p.viewer_offset()
        <= 131070 * 255) by (nonlinear_arith)
        requires
            0 <= width <= 65535,
            0 <= height <= 65535,
            0 <= p.viewer_offset() <= 255,
    ;
    lemma_inverse_depth(z);
    crate::surface::lemma_luminance_bounded(a, b, theta, phi);
}

/// The inverse depth of a point at least one unit in front of the viewer
/// and no further than [`DEPTH_ONE`] units lies between 1 and
/// [`DEPTH_ONE`].
pub proof fn lemma_inverse_depth(z: int)
    requires
        UNIT <= z <= DEPTH_UNIT,
    ensures
        1 <= inverse_depth(z) <= DEPTH_ONE,
{
    let u = UNIT as int;
    let d = DEPTH_UNIT as int;
    assert(d == DEPTH_ONE * u);
    vstd::arithmetic::div_mod::lemma_div_is_ordered_by_denominator(d, u, z);
    vstd::arithmetic::div_mod::lemma_div_multiples_vanish(DEPTH_ONE as int, u);
    assert(DEPTH_ONE * u == u * DEPTH_ONE) by (nonlinear_arith);
    vstd::arithmetic::div_mod::lemma_div_non_zero(d, z);
}

/// The cell on which a point falls that is in front of the viewer and
/// within the reach of the torus.
fn project(p: &Projection, width: u16, height: u16, point: &Point) -> (cell: (i64, i64))
    requires
        UNIT <= point.z <= (p.viewer_offset() + p.reach()) * UNIT,
        -(p.reach() * UNIT) <= point.x <= p.reach() * UNIT,
        -(p.reach() * UNIT) <= point.y <= p.reach() * UNIT,
    ensures
        cell.0 == screen_row(*p, width as int, height as int, point.y as int, point.z as int),
        cell.1 == screen_col(*p, width as int, point.x as int, point.z as int),
{
    proof {
        use_type_invariant(p);
        lemma_unit();
        lemma_reach_unit(*p);
        lemma_cell_bounded(
            *p,
            width as int,
            height as int,
            point.x as int,
            point.y as int,
            point.z as int,
        );
        assert(width * p.viewer_offset() <= 65535 * 255 && (width + height) * p.viewer_offset()
            <= 131070 * 255) by (nonlinear_arith)
            requires
                0 <= width <= 65535,
                0 <= height <= 65535,
                0 <= p.viewer_offset() <= 255,
        ;
    }
    let ghost u = UNIT as int;
    let ghost bz = 509 * u;
    let ghost bxy = 254 * u;
    let reach: i128 = p.tube_radius() as i128 + p.ring_radius() as i128;
    let k2: i128 = p.viewer_offset() as i128;
    let den: i128 = mul_i128(8 * reach, point.z, Ghost(2032), Ghost(bz));
    // the column
    let mid_x: i128 = mul_i128(4 * reach, point.z, Ghost(1016), Ghost(bz));
    let off_x: i128 = mul_i128(3 * k2, point.x, Ghost(765), Ghost(bxy));
    let num_x: i128 = mul_i128(
        width as i128,
        mid_x + off_x,
        Ghost(65535),
        Ghost(1016 * bz + 765 * bxy),
    );
    let col: i128 = floor_div(num_x, den);
    // the row
    let mid_y: i128 = mul_i128(
        mul_i128(4 * reach, height as i128, Ghost(1016), Ghost(65535)),
        point.z,
        Ghost(66583560),
        Ghost(bz),
    );
    let off_y: i128 = mul_i128(
        mul_i128(3 * (width as i128), k2, Ghost(196605), Ghost(255)),
        point.y,
        Ghost(50134275),
        Ghost(bxy),
    );
    let row: i128 = floor_div(mid_y - off_y, den);
    (row as i64, col as i64)
}

/// One over the distance `z`, scaled and rounded down.
fn invert(z: i128) -> (r: u64)
    requires
        UNIT <= z <= DEPTH_UNIT,
    ensures
        r == inverse_depth(z as int),
        1 <= r <= DEPTH_ONE,
{
    proof {
        lemma_inverse_depth(z as int);
    }
    let q: i128 = DEPTH_UNIT / z;
    q as u64
}

/// The sample `(theta, phi)` of the torus turned by `a` and `b`, as a screen
/// of `width` by `height` cells sees it.
pub fn sample(
    p: &Projection,
    width: u16,
    height: u16,
    a: &Trig,
    b: &Trig,
    theta: &Trig,
    phi: &Trig,
) -> (s: Sample)
    ensures
        s == sample_at(*p, width as int, height as int, *a, *b, *theta, *phi),
        s.inverse_depth >= 1,
        in_full_view(*p) && 1 <= width <= height ==> 0 <= s.row < height && 0 <= s.col < width,
{
    proof {
        use_type_invariant(p);
        use_type_invariant(a);
        use_type_invariant(b);
        use_type_invariant(theta);
        use_type_invariant(phi);
        lemma_unit();
        lemma_depth_within_reach(*p, *a, *theta, *phi);
        lemma_point_within_reach(*p, *a, *b, *theta, *phi);
        lemma_reach_unit(*p);
        if in_full_view(*p) && 1 <= width <= height {
            lemma_torus_in_full_view(*p, width as int, height as int, *a, *b, *theta, *phi);
        }
    }
    let point = surface_point(p, a, b, theta, phi);
    let cell = project(p, width, height, &point);
    Sample {
        row: cell.0,
        col: cell.1,
        inverse_depth: invert(point.z),
        luminance: surface_luminance(a, b, theta, phi),
    }
}

/// All the samples of one frame in the order in which they are taken: for
/// each `theta` in turn, every `phi` in turn.
pub open spec fn sweep(
    p: Projection,
    width: int,
    height: int,
    a: Trig,
    b: Trig,
    thetas: Seq<Trig>,
    phis: Seq<Trig>,
) -> Seq<Sample> {
    Seq::new(
        thetas.len() * phis.len(),
        |k: int|
            sample_at(
                p,
                width,
                height,
                a,
                b,
                thetas[k / (phis.len() as int)],
                phis[k % (phis.len() as int)],
            ),
    )
}

/// The sample of the `i`-th `theta` and the `j`-th `phi` is the one at place
/// `i * phis.len() + j` of the sweep.
pub proof fn lemma_sweep_index(
    p: Projection,
    width: int,
    height: int,
    a: Trig,
    b: Trig,
    thetas: Seq<Trig>,
    phis: Seq<Trig>,
    i: int,
    j: int,
)
    requires
        0 <= i < thetas.len(),
        0 <= j < phis.len(),
    ensures
        0 <= i * phis.len() + j < sweep(p, width, height, a, b, thetas, phis).len(),
        sweep(p, width, height, a, b, thetas, phis)[i * phis.len() + j] == sample_at(
            p,
            width,
            height,
            a,
            b,
            thetas[i],
            phis[j],
        ),
{
    let n = phis.len() as int;
    let k = i * n + j;
    crate::frame::lemma_cell_index(n, thetas.len() as int, i, j);
    assert(thetas.len() * phis.len() == n * thetas.len()) by (nonlinear_arith)
        requires
            n == phis.len(),
    ;
    assert(k == n * i + j) by (nonlinear_arith)
        requires
            k == i * n + j,
    ;
    vstd::arithmetic::div_mod::lemma_fundamental_div_mod_converse(k, n, i, j);
}

} // verus!
