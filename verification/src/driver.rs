//! The animation: two angles that grow by a fixed step with every tick, and
//! the frame that is drawn anew for each.
//!
//! Angles are whole hundredths of a radian. Every angle of the animation is
//! one: the torus starts at one radian about each axis and turns by 0.07
//! and 0.03 radians a tick, and the surface is sampled every 0.07 radians
//! round the tube and every 0.02 radians round the axis.

use vstd::prelude::*;
use crate::frame::{Frame, FrameView};
use crate::projection::Projection;
use crate::sample::sweep;
use crate::trig::Trig;

verus! {

/// By how much the first angle grows with every tick.
pub const A_STEP: u64 = 7;

/// By how much the second angle grows with every tick.
pub const B_STEP: u64 = 3;

/// The angle about either axis at which the animation starts.
pub const START_ANGLE: u64 = 100;

/// The step between two samples round the tube.
pub const THETA_SPACING: u64 = 7;

/// The step between two samples round the axis of the torus.
pub const PHI_SPACING: u64 = 2;

/// The greatest whole angle below a full turn: a full turn is
/// 6.2831... radians.
pub const LAST_ANGLE: u64 = 628;

/// The pause before each tick, in milliseconds.
pub const TICK_MILLIS: u64 = 15;

/// The two angles by which the torus is turned, in hundredths of a radian.
#[derive(Clone, Copy, Debug, PartialEq, Eq)]
pub struct Rotation {
    /// The angle about the x-axis.
    pub a: u64,
    /// The angle about the z-axis.
    pub b: u64,
}

impl Rotation {
    /// Whether both angles can grow by their step without leaving their
    /// type.
    pub open spec fn can_advance(self) -> bool {
        self.a + A_STEP <= u64::MAX && self.b + B_STEP <= u64::MAX
    }

    /// The rotation one tick later.
    pub open spec fn advanced(self) -> Rotation {
        Rotation { a: (self.a + A_STEP) as u64, b: (self.b + B_STEP) as u64 }
    }

    /// The rotation `ticks` ticks later.
    pub open spec fn advanced_by(self, ticks: nat) -> Rotation
        decreases ticks,
    {
        if ticks == 0 {
            self
        } else {
            self.advanced_by((ticks - 1) as nat).advanced()
        }
    }

    /// The rotation at which the animation starts.
    pub fn start() -> (r: Rotation)
        ensures
            r == (Rotation { a: START_ANGLE, b: START_ANGLE }),
    {
        Rotation { a: START_ANGLE, b: START_ANGLE }
    }

    /// Turns the torus by one tick: both angles grow by their step. They
    /// are never taken back into the first turn. Where a step would leave
    /// the type, nothing changes, and the result says so.
    pub fn advance(&mut self) -> (advanced: bool)
        ensures
            advanced == old(self).can_advance(),
            advanced ==> *final(self) == old(self).advanced(),
            !advanced ==> *final(self) == *old(self),
            advanced ==> final(self).a == old(self).a + A_STEP && final(self).b == old(self).b
                + B_STEP,
    {
        if self.a <= u64::MAX - A_STEP && self.b <= u64::MAX - B_STEP {
            self.a = self.a + A_STEP;
            self.b = self.b + B_STEP;
            true
        } else {
            false
        }
    }

    /// After `ticks` ticks each angle has grown by `ticks` times its step.
    pub proof fn lemma_advanced_by(self, ticks: nat)
        requires
            self.a + ticks * A_STEP <= u64::MAX,
            self.b + ticks * B_STEP <= u64::MAX,
        ensures
            self.advanced_by(ticks).a == self.a + ticks * A_STEP,
            self.advanced_by(ticks).b == self.b + ticks * B_STEP,
        decreases ticks,
    {
        if ticks > 0 {
            let before = (ticks - 1) as nat;
            assert(ticks * A_STEP == before * A_STEP + A_STEP) by (nonlinear_arith)
                requires
                    ticks == before + 1,
            ;
            assert(ticks * B_STEP == before * B_STEP + B_STEP) by (nonlinear_arith)
                requires
                    ticks == before + 1,
            ;
            self.lemma_advanced_by(before);
        }
    }
}

/// The angles at which the surface is sampled round one of its circles:
/// every multiple of `spacing` below a full turn, from 0 upwards.
pub open spec fn sample_angles(spacing: int) -> Seq<u64> {
    Seq::new(((LAST_ANGLE as int) / spacing + 1) as nat, |i: int| (i * spacing) as u64)
}

/// The angles at which the surface is sampled round one of its circles:
/// every multiple of `spacing` below a full turn, from 0 upwards.
pub fn sweep_angles(spacing: u64) -> (angles: Vec<u64>)
    requires
        spacing > 0,
    ensures
        angles@ == sample_angles(spacing as int),
        forall|i: int| 0 <= i < angles@.len() ==> angles@[i] == i * spacing,
        forall|i: int| 0 <= i < angles@.len() ==> angles@[i] <= LAST_ANGLE,
        angles@.len() * spacing > LAST_ANGLE,
{
    let mut angles: Vec<u64> = Vec::new();
    let mut angle: u64 = 0;
    assert(0 * spacing == 0) by (nonlinear_arith);
    while angle <= LAST_ANGLE
        invariant
            spacing > 0,
            angle == angles@.len() * spacing,
            angle <= LAST_ANGLE + spacing,
            forall|i: int| 0 <= i < angles@.len() ==> angles@[i] == i * spacing,
            forall|i: int| 0 <= i < angles@.len() ==> angles@[i] <= LAST_ANGLE,
        decreases LAST_ANGLE + spacing - angle,
    {
        let ghost n = angles@.len() as int;
        angles.push(angle);
        if spacing > LAST_ANGLE {
            proof {
                assert((n + 1) * spacing == n * spacing + spacing) by (nonlinear_arith);
                assert(n == 0) by (nonlinear_arith)
                    requires
                        n >= 0,
                        n * spacing <= 628,
                        spacing > 628,
                ;
                lemma_angle_count(spacing as int, 1);
                assert(angles@ =~= sample_angles(spacing as int));
            }
            return angles;
        }
        angle = angle + spacing;
        proof {
            assert((n + 1) * spacing == n * spacing + spacing) by (nonlinear_arith);
        }
    }
    proof {
        let n = angles@.len() as int;
        assert(n >= 1) by (nonlinear_arith)
            requires
                n >= 0,
                n * spacing > 628,
        ;
        assert(angles@[n - 1] == (n - 1) * spacing);
        lemma_angle_count(spacing as int, n);
        assert(angles@ =~= sample_angles(spacing as int));
    }
    angles
}

/// The number of multiples of `spacing` up to [`LAST_ANGLE`] is the one
/// count `n` whose last multiple is within and whose next is beyond.
proof fn lemma_angle_count(spacing: int, n: int)
    requires
        spacing > 0,
        n >= 1,
        (n - 1) * spacing <= LAST_ANGLE,
        n * spacing > LAST_ANGLE,
    ensures
        (LAST_ANGLE as int) / spacing + 1 == n,
{
    let last = LAST_ANGLE as int;
    let r = last - (n - 1) * spacing;
    assert(n * spacing == (n - 1) * spacing + spacing) by (nonlinear_arith);
    assert(last == spacing * (n - 1) + r) by (nonlinear_arith)
        requires
            r == last - (n - 1) * spacing,
    ;
    vstd::arithmetic::div_mod::lemma_fundamental_div_mod_converse_div(last, spacing, n - 1, r);
}

/// An animation under way: the scene and the samples that are taken of it,
/// the frame that is drawn anew with every tick, and the rotation that the
/// next tick will show.
pub struct Animation {
    projection: Projection,
    thetas: Vec<Trig>,
    phis: Vec<Trig>,
    frame: Frame,
    rotation: Rotation,
}

impl Animation {
    /// The measures of the scene.
    pub closed spec fn projection(&self) -> Projection {
        self.projection
    }

    /// The cosines and sines of the angles at which the surface is sampled
    /// round the tube.
    pub closed spec fn thetas(&self) -> Seq<Trig> {
        self.thetas@
    }

    /// The cosines and sines of the angles at which the surface is sampled
    /// round the axis of the torus.
    pub closed spec fn phis(&self) -> Seq<Trig> {
        self.phis@
    }

    /// What the frame shows.
    pub closed spec fn shown(&self) -> FrameView {
        self.frame@
    }

    /// The rotation that the next tick will show.
    pub closed spec fn spec_rotation(&self) -> Rotation {
        self.rotation
    }

    /// What a blank frame of the animation's measures shows once the torus,
    /// turned by `a` and `b`, is drawn on it.
    pub open spec fn drawn(&self, a: Trig, b: Trig) -> FrameView {
        FrameView::blank(self.shown().width, self.shown().height).rendered(
            sweep(
                self.projection(),
                self.shown().width as int,
                self.shown().height as int,
                a,
                b,
                self.thetas(),
                self.phis(),
            ),
        )
    }

    /// An animation at its start, on a blank screen of `width` by `height`
    /// cells. The surface will be sampled at every angle of `thetas` round
    /// the tube and, for each, at every angle of `phis` round the axis.
    pub fn new(
        width: u16,
        height: u16,
        projection: Projection,
        thetas: Vec<Trig>,
        phis: Vec<Trig>,
    ) -> (r: Animation)
        ensures
            r.projection() == projection,
            r.thetas() == thetas@,
            r.phis() == phis@,
            r.shown() == FrameView::blank(width as nat, height as nat),
            r.spec_rotation() == (Rotation { a: START_ANGLE, b: START_ANGLE }),
    {
        Animation {
            projection,
            thetas,
            phis,
            frame: Frame::new(width, height),
            rotation: Rotation::start(),
        }
    }

    /// The rotation that the next tick will show.
    #[verifier::when_used_as_spec(spec_rotation)]
    pub fn rotation(&self) -> (r: Rotation)
        ensures
            r == self.spec_rotation(),
    {
        self.rotation
    }

    /// The frame as the last tick left it.
    pub fn frame(&self) -> (f: &Frame)
        ensures
            f@ == self.shown(),
    {
        &self.frame
    }

    /// One tick of the animation, but for the pause before it.
    ///
    /// The frame is wiped and the torus drawn on it, turned by `a` and `b`,
    /// which are to be the cosine and sine of the two angles of
    /// [`Animation::rotation`]. Then the rotation advances by one step. The
    /// result is the bytes that show the new frame on a terminal. What the
    /// frame showed before has no part in it.
    pub fn tick(&mut self, a: &Trig, b: &Trig) -> (out: Vec<u8>)
        ensures
            final(self).shown() == old(self).drawn(*a, *b),
            out@ == final(self).shown().encoded(),
            final(self).spec_rotation() == (if old(self).spec_rotation().can_advance() {
                old(self).spec_rotation().advanced()
            } else {
                old(self).spec_rotation()
            }),
            final(self).projection() == old(self).projection(),
            final(self).thetas() == old(self).thetas(),
            final(self).phis() == old(self).phis(),
    {
        self.frame.clear_state();
        self.frame.render_frame(&self.projection, a, b, self.thetas.as_slice(), self.phis.as_slice());
        let out = self.frame.encode();
        self.rotation.advance();
        out
    }
}

} // verus!
