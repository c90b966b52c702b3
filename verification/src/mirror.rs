//! The torus at rest is the same to the left and to the right of the
//! viewer: a sample and its mirror image fall on mirrored cells.

use vstd::prelude::*;
use crate::arith::sq;
use crate::frame::FrameView;
use crate::occlusion::lemma_depth_buffer_from_blank;
use crate::palette::shade_of;
use crate::projection::Projection;
use crate::sample::{col_num, lemma_sample_at, sample_at, screen_den, Sample};
use crate::surface::{
    circle_x,
    circle_y,
    lemma_depth_within_reach,
    luminance,
    point_x,
    point_y,
    point_z,
};
use crate::trig::{Trig, ONE};

verus! {

/// Whether `t` is the cosine and sine of the angle 0.
pub open spec fn at_rest(t: Trig) -> bool {
    t.cos() == ONE && t.sin() == 0
}

/// Whether `m` is the image of `phi` in the plane through the viewer and
/// the axis of the torus at rest: the cosine changes its sign, the sine
/// stays.
pub open spec fn mirrors(m: Trig, phi: Trig) -> bool {
    m.cos() == -phi.cos() && m.sin() == phi.sin()
}

/// Whether `m` is the image of the sample `s` in the middle of a screen of
/// `width` columns: as near, as bright, on the same row, and as far from
/// the right edge as `s` is from the left.
pub open spec fn is_mirror_image(m: Sample, s: Sample, width: int) -> bool {
    &&& m.row == s.row
    &&& m.col == width - 1 - s.col
    &&& m.inverse_depth == s.inverse_depth
    &&& m.luminance == s.luminance
}

/// Whether every sample that lands on the screen has its mirror image among
/// the samples.
pub open spec fn mirror_closed(samples: Seq<Sample>, width: int, height: int) -> bool {
    forall|i: int|
        0 <= i < samples.len() && 0 <= (#[trigger] samples[i]).row < height && 0 <= samples[i].col
            < width && shade_of(samples[i].luminance as int) is Some ==> exists|j: int|
            0 <= j < samples.len() && is_mirror_image(#[trigger] samples[j], samples[i], width)
}

/// Whether samples that fall on the same cell and are equally near are
/// drawn alike.
pub open spec fn ties_agree(samples: Seq<Sample>) -> bool {
    forall|i: int, j: int|
        0 <= i < samples.len() && 0 <= j < samples.len() && (#[trigger] samples[i]).row == (
        #[trigger] samples[j]).row && samples[i].col == samples[j].col && samples[i].inverse_depth
            == samples[j].inverse_depth ==> shade_of(samples[i].luminance as int) == shade_of(
            samples[j].luminance as int,
        )
}

/// The quotient of a negated number that its divisor does not divide.
proof fn lemma_div_neg(n: int, d: int)
    requires
        d > 0,
        n % d != 0,
    ensures
        (-n) / d == -(n / d) - 1,
{
    let q = n / d;
    let r = n % d;
    vstd::arithmetic::div_mod::lemma_fundamental_div_mod(n, d);
    vstd::arithmetic::div_mod::lemma_mod_bound(n, d);
    assert(-n == d * (-q - 1) + (d - r)) by (nonlinear_arith)
        requires
            n == d * q + r,
    ;
    vstd::arithmetic::div_mod::lemma_fundamental_div_mod_converse_div(-n, d, -q - 1, d - r);
}

/// With the torus at rest, the mirror image of a sample lies as far to the
/// one side of the viewer as the sample lies to the other, at the same
/// height and the same distance, and is lit alike.
pub proof fn lemma_mirror_point(p: Projection, a: Trig, b: Trig, theta: Trig, phi: Trig, m: Trig)
    requires
        at_rest(a),
        at_rest(b),
        mirrors(m, phi),
    ensures
        point_x(p, a, b, theta, m) == -point_x(p, a, b, theta, phi),
        point_y(p, a, b, theta, m) == point_y(p, a, b, theta, phi),
        point_z(p, a, theta, m) == point_z(p, a, theta, phi),
        luminance(a, b, theta, m) == luminance(a, b, theta, phi),
{
    let one = ONE as int;
    let cx = circle_x(p, theta);
    let cy = circle_y(p, theta);
    let cp = phi.cos() as int;
    let sp = phi.sin() as int;
    let ct = theta.cos() as int;
    // x changes its sign
    assert(one * (-cp) * one == -(one * cp * one)) by (nonlinear_arith);
    assert(0 * 0 * sp == 0) by (nonlinear_arith);
    assert(cy * one * 0 * one == 0) by (nonlinear_arith);
    assert(cx * (-(one * cp * one) + 0) == -(cx * (one * cp * one + 0))) by (nonlinear_arith);
    // y does not know phi
    assert(0 * (-cp) * one == 0 && 0 * cp * one == 0) by (nonlinear_arith);
    assert(0 * one * sp == 0) by (nonlinear_arith);
    // the luminance knows only its sine
    assert((-cp) * ct * 0 * one == 0 && cp * ct * 0 * one == 0) by (nonlinear_arith);
}

/// With the torus at rest, the mirror image of a sample falls on the same
/// row as the sample, as near and as bright, and on the column that
/// mirrors the sample's column about the middle of the screen, unless the
/// sample falls exactly between two columns.
pub proof fn lemma_mirror_at_rest(
    p: Projection,
    width: int,
    height: int,
    a: Trig,
    b: Trig,
    theta: Trig,
    phi: Trig,
    m: Trig,
)
    requires
        p.wf(),
        theta.wf(),
        phi.wf(),
        at_rest(a),
        at_rest(b),
        mirrors(m, phi),
        0 <= width <= 65535,
        0 <= height <= 65535,
        col_num(p, width, point_x(p, a, b, theta, phi), point_z(p, a, theta, phi)) % screen_den(
            p,
            point_z(p, a, theta, phi),
        ) != 0,
    ensures
        is_mirror_image(
            sample_at(p, width, height, a, b, theta, m),
            sample_at(p, width, height, a, b, theta, phi),
            width,
        ),
{
    let x = point_x(p, a, b, theta, phi);
    let z = point_z(p, a, theta, phi);
    assert(a.wf() && b.wf());
    assert(m.wf()) by {
        assert(sq(-(phi.cos() as int)) == sq(phi.cos() as int)) by (nonlinear_arith);
    }
    lemma_mirror_point(p, a, b, theta, phi, m);
    lemma_sample_at(p, width, height, a, b, theta, phi);
    lemma_sample_at(p, width, height, a, b, theta, m);
    lemma_depth_within_reach(p, a, theta, phi);
    let r = p.reach();
    let k = p.viewer_offset() as int;
    let d = screen_den(p, z);
    let n = col_num(p, width, x, z);
    let n2 = col_num(p, width, -x, z);
    assert(d > 0) by (nonlinear_arith)
        requires
            d == 8 * r * z,
            r >= 1,
            z > 0,
    ;
    assert(n2 == -n + width * d) by (nonlinear_arith)
        requires
            n == width * (4 * r * z + 3 * k * x),
            n2 == width * (4 * r * z + 3 * k * (-x)),
            d == 8 * r * z,
    ;
    vstd::arithmetic::div_mod::lemma_hoist_over_denominator(-n, width, d as nat);
    lemma_div_neg(n, d);
}

/// A blank frame on which samples were drawn that come in mirrored pairs
/// is the same to the left and to the right: every cell shows what the
/// cell shows that mirrors it about the middle of the screen.
pub proof fn lemma_mirrored_frame(
    width: nat,
    height: nat,
    samples: Seq<Sample>,
    row: int,
    col: int,
)
    requires
        0 <= row < height,
        0 <= col < width,
        mirror_closed(samples, width as int, height as int),
        ties_agree(samples),
    ensures
        FrameView::blank(width, height).rendered(samples).at(row, col) == FrameView::blank(
            width,
            height,
        ).rendered(samples).at(row, width - 1 - col),
{
    let f = FrameView::blank(width, height).rendered(samples);
    let there = width - 1 - col;
    let a = f.at(row, col);
    let b = f.at(row, there);
    lemma_depth_buffer_from_blank(width, height, samples, row, col);
    lemma_depth_buffer_from_blank(width, height, samples, row, there);
    let landed_here = exists|i: int|
        0 <= i < samples.len() && (#[trigger] samples[i]).lands_on(row, col)
            && samples[i].inverse_depth > 0;
    let landed_there = exists|i: int|
        0 <= i < samples.len() && (#[trigger] samples[i]).lands_on(row, there)
            && samples[i].inverse_depth > 0;
    if landed_here {
        let i0 = choose|i: int|
            0 <= i < samples.len() && (#[trigger] samples[i]).lands_on(row, col)
                && samples[i].inverse_depth > 0;
        let i = choose|i: int|
            0 <= i < samples.len() && (#[trigger] samples[i]).lands_on(row, col) && a
                == samples[i].drawn();
        assert(samples[i0].inverse_depth <= a.inverse_depth);
        // the image of the sample that is shown here lands there
        let j = choose|j: int|
            0 <= j < samples.len() && is_mirror_image(
                #[trigger] samples[j],
                samples[i],
                width as int,
            );
        assert(samples[j].lands_on(row, there));
        assert(landed_there);
        let j2 = choose|j: int|
            0 <= j < samples.len() && (#[trigger] samples[j]).lands_on(row, there) && b
                == samples[j].drawn();
        assert(samples[j].inverse_depth <= b.inverse_depth);
        // the image of the sample that is shown there lands here
        let i2 = choose|k: int|
            0 <= k < samples.len() && is_mirror_image(
                #[trigger] samples[k],
                samples[j2],
                width as int,
            );
        assert(samples[i2].lands_on(row, col));
        assert(samples[i2].inverse_depth <= a.inverse_depth);
        assert(samples[i2].inverse_depth == samples[i].inverse_depth);
    } else {
        if landed_there {
            let j = choose|j: int|
                0 <= j < samples.len() && (#[trigger] samples[j]).lands_on(row, there)
                    && samples[j].inverse_depth > 0;
            let i = choose|k: int|
                0 <= k < samples.len() && is_mirror_image(
                    #[trigger] samples[k],
                    samples[j],
                    width as int,
                );
            assert(samples[i].lands_on(row, col));
            assert(false);
        }
    }
}

} // verus!
