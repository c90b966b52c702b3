//! A torus, turned in space and drawn in characters.
//!
//! The surface of the torus is sampled on a grid of two angles. Each sample
//! is turned with the torus, set before the viewer, and thrown onto a screen
//! of character cells; where several samples fall on one cell, the nearest
//! is shown, with a glyph that tells how brightly it is lit.
//!
//! All of it is whole-number arithmetic. Angles enter as cosines and sines
//! in fixed point ([`trig`]), the surface and its light are polynomials in
//! them ([`surface`]), and a sample on the screen is two quotients rounded
//! down and an inverse depth ([`sample`]). The frame ([`frame`]) keeps the
//! glyphs and the inverse depths, and [`driver`] steps the animation.
//! What holds of every frame is proved beside the code: that the torus
//! stays in front of the viewer and the light within its range
//! ([`surface`]), that each lit sample has a glyph ([`palette`]), that each
//! cell shows the nearest sample that landed on it ([`occlusion`]), when
//! the whole torus is seen ([`viewport`]), and when the frame is the same
//! to the left and to the right ([`mirror`]).

pub mod arith;
pub mod driver;
pub mod frame;
pub mod mirror;
pub mod occlusion;
pub mod palette;
pub mod projection;
pub mod sample;
pub mod surface;
pub mod trig;
pub mod viewport;
