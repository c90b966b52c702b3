//! From luminance to glyph.
//!
//! Twelve glyphs, from the faintest to the brightest. A lit sample is drawn
//! with the glyph whose place in the row is eight times its luminance,
//! rounded down; a sample that is not lit is not drawn at all.

use vstd::prelude::*;
use crate::surface::{lemma_luminance_bounded, luminance, UNIT};
use crate::trig::Trig;

verus! {

/// The number of glyphs.
pub const PALETTE_LEN: usize = 12;

/// The glyph of a cell on which nothing is drawn.
pub const BLANK: char = ' ';

/// The glyphs in order of brightness.
pub open spec fn palette() -> Seq<char> {
    seq!['.', ',', '-', '~', ':', ';', '=', '!', '*', '#', '$', '@']
}

/// Whether `c` is one of the twelve glyphs.
pub open spec fn is_glyph(c: char) -> bool {
    exists|i: int| 0 <= i < 12 && palette()[i] == c
}

/// The place in the palette that a luminance selects: eight times the
/// luminance, rounded down.
pub open spec fn luminance_index(l: int) -> int {
    (8 * l) / (UNIT as int)
}

/// The glyph with which a sample of luminance `l` is drawn: none if the
/// sample is not lit, and none if the palette has no glyph that bright.
pub open spec fn shade_of(l: int) -> Option<char> {
    if l > 0 && luminance_index(l) < 12 {
        Some(palette()[luminance_index(l)])
    } else {
        None
    }
}

/// The glyph at a place in the palette, if the palette reaches that far.
pub fn glyph(index: usize) -> (r: Option<char>)
    ensures
        r == (if index < 12 {
            Some(palette()[index as int])
        } else {
            None
        }),
{
    if index < PALETTE_LEN {
        proof {
            reveal_strlit(".,-~:;=!*#$@");
        }
        let glyphs = ".,-~:;=!*#$@";
        assert(glyphs@ =~= palette());
        Some(glyphs.get_char(index))
    } else {
        None
    }
}

/// A luminance that is positive and below one and a half selects a place in
/// the palette.
pub proof fn lemma_index_in_palette(l: int)
    requires
        0 < l,
        2 * l < 3 * UNIT,
    ensures
        0 <= luminance_index(l) <= 11,
        shade_of(l) == Some(palette()[luminance_index(l)]),
        is_glyph(shade_of(l).unwrap()),
{
    let u = UNIT as int;
    vstd::arithmetic::div_mod::lemma_div_pos_is_pos(8 * l, u);
    vstd::arithmetic::div_mod::lemma_fundamental_div_mod(8 * l, u);
    vstd::arithmetic::div_mod::lemma_mod_bound(8 * l, u);
    let q = (8 * l) / u;
    if q >= 12 {
        assert(u * q >= u * 12) by (nonlinear_arith)
            requires
                q >= 12,
                u > 0,
        ;
    }
}

/// Whatever a sample is drawn with is one of the twelve glyphs, and so not
/// the blank.
pub proof fn lemma_shade_is_glyph(l: int)
    requires
        shade_of(l) is Some,
    ensures
        is_glyph(shade_of(l).unwrap()),
        shade_of(l).unwrap() != BLANK,
{
    vstd::arithmetic::div_mod::lemma_div_pos_is_pos(8 * l, UNIT as int);
    let i = luminance_index(l);
    assert(0 <= i < 12 && palette()[i] == shade_of(l).unwrap());
}

/// The glyph with which a sample of luminance `l` is drawn, if it is drawn.
pub fn shade(l: i128) -> (r: Option<char>)
    ensures
        r == shade_of(l as int),
        r matches Some(c) ==> is_glyph(c) && c != BLANK,
{
    if l <= 0 {
        return None;
    }
    if l >= 12 * (UNIT / 8) {
        proof {
            let u = UNIT as int;
            assert(8 * (l as int) >= 12 * u);
            vstd::arithmetic::div_mod::lemma_div_is_ordered(12 * u, 8 * (l as int), u);
            vstd::arithmetic::div_mod::lemma_div_multiples_vanish(12, u);
            assert(12 * u == u * 12) by (nonlinear_arith);
        }
        return None;
    }
    proof {
        lemma_index_in_palette(l as int);
    }
    let index: i128 = (8 * l) / UNIT;
    let r = glyph(index as usize);
    assert(r matches Some(c) && c != BLANK);
    r
}

/// A lit sample of the surface always has a glyph: its luminance selects a
/// place from 0 to 11.
pub proof fn lemma_lit_sample_has_glyph(a: Trig, b: Trig, theta: Trig, phi: Trig)
    requires
        a.wf(),
        b.wf(),
        theta.wf(),
        phi.wf(),
        luminance(a, b, theta, phi) > 0,
    ensures
        0 <= luminance_index(luminance(a, b, theta, phi)) <= 11,
        shade_of(luminance(a, b, theta, phi)) is Some,
{
    lemma_luminance_bounded(a, b, theta, phi);
    lemma_index_in_palette(luminance(a, b, theta, phi));
}

} // verus!
