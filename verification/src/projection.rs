//! The constants of the scene: the two radii of the torus and the distance
//! of the viewer.

use vstd::prelude::*;

verus! {

/// The fixed measures of the scene, in whole units of length.
///
/// The viewer stands `viewer_offset` in front of the centre of the torus, and
/// further away than the torus reaches, so that every point of the surface
/// lies in front of the viewer.
#[derive(Clone, Copy, Debug)]
pub struct Projection {
    tube_radius: u8,
    ring_radius: u8,
    viewer_offset: u8,
}

impl Projection {
    /// The radius of the tube's cross-section.
    pub closed spec fn spec_tube_radius(&self) -> u8 {
        self.tube_radius
    }

    /// The distance from the centre of the torus to the centre of the tube.
    pub closed spec fn spec_ring_radius(&self) -> u8 {
        self.ring_radius
    }

    /// The distance from the viewer to the centre of the torus.
    pub closed spec fn spec_viewer_offset(&self) -> u8 {
        self.viewer_offset
    }

    /// How far the surface reaches from the centre of the torus.
    pub open spec fn reach(&self) -> int {
        self.spec_tube_radius() + self.spec_ring_radius()
    }

    /// Whether three measures make a scene: there is a torus, and the viewer
    /// stands outside its reach.
    pub open spec fn admits(tube_radius: int, ring_radius: int, viewer_offset: int) -> bool {
        &&& tube_radius + ring_radius >= 1
        &&& viewer_offset > tube_radius + ring_radius
    }

    /// The measures make a scene.
    #[verifier::type_invariant]
    pub open spec fn wf(self) -> bool {
        Self::admits(
            self.spec_tube_radius() as int,
            self.spec_ring_radius() as int,
            self.spec_viewer_offset() as int,
        )
    }

    /// The scene with the given measures, if they make one.
    pub fn new(tube_radius: u8, ring_radius: u8, viewer_offset: u8) -> (r: Option<Projection>)
        ensures
            r is Some <==> Self::admits(
                tube_radius as int,
                ring_radius as int,
                viewer_offset as int,
            ),
            r matches Some(p) ==> p.spec_tube_radius() == tube_radius && p.spec_ring_radius()
                == ring_radius && p.spec_viewer_offset() == viewer_offset,
    {
        let reach: u16 = tube_radius as u16 + ring_radius as u16;
        if reach >= 1 && viewer_offset as u16 > reach {
            Some(Projection { tube_radius, ring_radius, viewer_offset })
        } else {
            None
        }
    }

    /// A tube of radius 1 around a ring of radius 2, seen from 5 away.
    pub fn standard() -> (p: Projection)
        ensures
            p.spec_tube_radius() == 1,
            p.spec_ring_radius() == 2,
            p.spec_viewer_offset() == 5,
    {
        Projection { tube_radius: 1, ring_radius: 2, viewer_offset: 5 }
    }

    /// The radius of the tube's cross-section.
    #[verifier::when_used_as_spec(spec_tube_radius)]
    pub fn tube_radius(&self) -> (r: u8)
        ensures
            r == self.spec_tube_radius(),
    {
        self.tube_radius
    }

    /// The distance from the centre of the torus to the centre of the tube.
    #[verifier::when_used_as_spec(spec_ring_radius)]
    pub fn ring_radius(&self) -> (r: u8)
        ensures
            r == self.spec_ring_radius(),
    {
        self.ring_radius
    }

    /// The distance from the viewer to the centre of the torus.
    #[verifier::when_used_as_spec(spec_viewer_offset)]
    pub fn viewer_offset(&self) -> (r: u8)
        ensures
            r == self.spec_viewer_offset(),
    {
        self.viewer_offset
    }
}

} // verus!
