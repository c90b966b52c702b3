//! What a frame shows once samples were drawn on it: on every cell, the
//! nearest of the samples that landed there.

use vstd::prelude::*;
use crate::frame::{blank_cell, lemma_cell_index, Cell, FrameView};
use crate::palette::{shade_of, BLANK, lemma_shade_is_glyph};
use crate::sample::Sample;

verus! {

impl Sample {
    /// Whether the sample is lit and falls on the cell `(row, col)`.
    pub open spec fn lands_on(self, row: int, col: int) -> bool {
        shade_of(self.luminance as int) is Some && self.row == row && self.col == col
    }

    /// What a cell shows on which the sample was drawn.
    pub open spec fn drawn(self) -> Cell {
        Cell { glyph: shade_of(self.luminance as int).unwrap(), inverse_depth: self.inverse_depth }
    }
}

/// Whether `after` is what a cell shows that showed `before` and was then
/// offered `samples` in turn, as far as they landed on `(row, col)`:
/// nothing that landed there is nearer than `after`, and `after` is either
/// `before`, or the first of the nearest samples that landed there, which
/// is nearer than `before`.
pub open spec fn shows_nearest(
    before: Cell,
    after: Cell,
    samples: Seq<Sample>,
    row: int,
    col: int,
) -> bool {
    &&& before.inverse_depth <= after.inverse_depth
    &&& forall|i: int|
        0 <= i < samples.len() && (#[trigger] samples[i]).lands_on(row, col)
            ==> samples[i].inverse_depth <= after.inverse_depth
    &&& after == before || exists|i: int|
        {
            &&& 0 <= i < samples.len()
            &&& (#[trigger] samples[i]).lands_on(row, col)
            &&& after == samples[i].drawn()
            &&& before.inverse_depth < samples[i].inverse_depth
            &&& forall|j: int|
                0 <= j < i && (#[trigger] samples[j]).lands_on(row, col)
                    ==> samples[j].inverse_depth < samples[i].inverse_depth
        }
}

/// Two places on the screen that share a cell are the same place.
proof fn lemma_cell_index_injective(width: int, row: int, col: int, row2: int, col2: int)
    requires
        0 <= col < width,
        0 <= col2 < width,
        row * width + col == row2 * width + col2,
    ensures
        row == row2,
        col == col2,
{
    if row < row2 {
        assert(row2 * width >= (row + 1) * width) by (nonlinear_arith)
            requires
                row2 >= row + 1,
                width >= 0,
        ;
        assert((row + 1) * width == row * width + width) by (nonlinear_arith);
    } else if row2 < row {
        assert(row * width >= (row2 + 1) * width) by (nonlinear_arith)
            requires
                row >= row2 + 1,
                width >= 0,
        ;
        assert((row2 + 1) * width == row2 * width + width) by (nonlinear_arith);
    }
}

/// Offering a sample to a frame keeps the frame's measures, and changes at
/// most the cell on which the sample lands.
pub proof fn lemma_plotted_cell(f: FrameView, s: Sample, row: int, col: int)
    requires
        f.wf(),
        f.in_bounds(row, col),
    ensures
        f.plotted(s).wf(),
        f.plotted(s).width == f.width,
        f.plotted(s).height == f.height,
        f.plotted(s).at(row, col) == (if s.lands_on(row, col) && s.inverse_depth > f.at(
            row,
            col,
        ).inverse_depth {
            s.drawn()
        } else {
            f.at(row, col)
        }),
{
    lemma_cell_index(f.width as int, f.height as int, row, col);
    if f.accepts(s) {
        lemma_cell_index(f.width as int, f.height as int, s.row as int, s.col as int);
        if s.row * f.width + s.col == row * f.width + col {
            lemma_cell_index_injective(f.width as int, s.row as int, s.col as int, row, col);
        }
    }
}

/// Offering samples to a frame keeps the frame's measures.
pub proof fn lemma_rendered_measures(f: FrameView, samples: Seq<Sample>)
    requires
        f.wf(),
    ensures
        f.rendered(samples).wf(),
        f.rendered(samples).width == f.width,
        f.rendered(samples).height == f.height,
    decreases samples.len(),
{
    if samples.len() > 0 {
        lemma_rendered_measures(f, samples.drop_last());
        let g = f.rendered(samples.drop_last());
        if g.accepts(samples.last()) {
            lemma_cell_index(
                g.width as int,
                g.height as int,
                samples.last().row as int,
                samples.last().col as int,
            );
        }
    }
}

/// The depth buffer: after any run of samples, every cell of the frame
/// records the greatest inverse depth among what it showed before and the
/// samples that landed on it, and shows the first sample of that inverse
/// depth, or what it showed before if no sample was nearer.
pub proof fn lemma_depth_buffer(f: FrameView, samples: Seq<Sample>, row: int, col: int)
    requires
        f.wf(),
        f.in_bounds(row, col),
    ensures
        shows_nearest(f.at(row, col), f.rendered(samples).at(row, col), samples, row, col),
    decreases samples.len(),
{
    let before = f.at(row, col);
    if samples.len() > 0 {
        let init = samples.drop_last();
        let last = samples.last();
        let n = init.len() as int;
        let g = f.rendered(init);
        let mid = g.at(row, col);
        let after = f.rendered(samples).at(row, col);
        lemma_depth_buffer(f, init, row, col);
        lemma_rendered_measures(f, init);
        lemma_plotted_cell(g, last, row, col);
        assert forall|i: int| 0 <= i < n implies init[i] == samples[i] by {}
        assert(samples[n] == last);
        assert forall|i: int|
            0 <= i < samples.len() && (#[trigger] samples[i]).lands_on(
                row,
                col,
            ) implies samples[i].inverse_depth <= after.inverse_depth by {
            if i < n {
                assert(init[i].lands_on(row, col));
            }
        }
        if last.lands_on(row, col) && last.inverse_depth > mid.inverse_depth {
            assert forall|j: int|
                0 <= j < n && (#[trigger] samples[j]).lands_on(
                    row,
                    col,
                ) implies samples[j].inverse_depth < samples[n].inverse_depth by {
                assert(init[j].lands_on(row, col));
            }
            assert(samples[n].lands_on(row, col) && after == samples[n].drawn());
        } else if mid != before {
            let i = choose|i: int|
                {
                    &&& 0 <= i < init.len()
                    &&& (#[trigger] init[i]).lands_on(row, col)
                    &&& mid == init[i].drawn()
                    &&& before.inverse_depth < init[i].inverse_depth
                    &&& forall|j: int|
                        0 <= j < i && (#[trigger] init[j]).lands_on(row, col)
                            ==> init[j].inverse_depth < init[i].inverse_depth
                };
            assert forall|j: int|
                0 <= j < i && (#[trigger] samples[j]).lands_on(
                    row,
                    col,
                ) implies samples[j].inverse_depth < samples[i].inverse_depth by {
                assert(init[j].lands_on(row, col));
            }
            assert(samples[i].lands_on(row, col) && after == samples[i].drawn());
        }
    }
}

/// On a frame that was blank, a cell shows a glyph exactly if a sample
/// landed on it. It then records the greatest inverse depth among the
/// samples that landed on it, and shows the glyph of the first of them that
/// is that near.
pub proof fn lemma_depth_buffer_from_blank(
    width: nat,
    height: nat,
    samples: Seq<Sample>,
    row: int,
    col: int,
)
    requires
        0 <= row < height,
        0 <= col < width,
    ensures
        ({
            let after = FrameView::blank(width, height).rendered(samples).at(row, col);
            let landed = exists|i: int|
                0 <= i < samples.len() && (#[trigger] samples[i]).lands_on(row, col)
                    && samples[i].inverse_depth > 0;
            &&& forall|i: int|
                0 <= i < samples.len() && (#[trigger] samples[i]).lands_on(row, col)
                    ==> samples[i].inverse_depth <= after.inverse_depth
            &&& !landed ==> after == blank_cell()
            &&& landed ==> after.glyph != BLANK && exists|i: int|
                {
                    &&& 0 <= i < samples.len()
                    &&& (#[trigger] samples[i]).lands_on(row, col)
                    &&& after == samples[i].drawn()
                    &&& forall|j: int|
                        0 <= j < i && (#[trigger] samples[j]).lands_on(row, col)
                            ==> samples[j].inverse_depth < samples[i].inverse_depth
                }
        }),
{
    let f = FrameView::blank(width, height);
    lemma_cell_index(width as int, height as int, row, col);
    lemma_depth_buffer(f, samples, row, col);
    let after = f.rendered(samples).at(row, col);
    assert(f.at(row, col) == blank_cell());
    if after != blank_cell() {
        let i = choose|i: int|
            {
                &&& 0 <= i < samples.len()
                &&& (#[trigger] samples[i]).lands_on(row, col)
                &&& after == samples[i].drawn()
                &&& blank_cell().inverse_depth < samples[i].inverse_depth
                &&& forall|j: int|
                    0 <= j < i && (#[trigger] samples[j]).lands_on(row, col)
                        ==> samples[j].inverse_depth < samples[i].inverse_depth
            };
        lemma_shade_is_glyph(samples[i].luminance as int);
    }
}

/// A sample that falls outside the screen, be it by one cell, leaves the
/// frame as it is: it is not moved to the edge, nor to the other side.
pub proof fn lemma_outside_is_discarded(f: FrameView, s: Sample)
    requires
        s.row < 0 || s.row >= f.height || s.col < 0 || s.col >= f.width,
    ensures
        f.plotted(s) == f,
{
}

/// A lit sample that falls on the screen, be it on the last row or the last
/// column, is drawn on its own cell if it is nearer than what the cell
/// shows, and no other cell changes.
pub proof fn lemma_inside_is_drawn(f: FrameView, s: Sample)
    requires
        f.wf(),
        0 <= s.row <= f.height - 1,
        0 <= s.col <= f.width - 1,
        shade_of(s.luminance as int) is Some,
        s.inverse_depth > f.at(s.row as int, s.col as int).inverse_depth,
    ensures
        f.plotted(s).at(s.row as int, s.col as int) == s.drawn(),
        forall|row: int, col: int|
            f.in_bounds(row, col) && (row != s.row || col != s.col) ==> #[trigger] f.plotted(s).at(
                row,
                col,
            ) == f.at(row, col),
{
    lemma_plotted_cell(f, s, s.row as int, s.col as int);
    assert forall|row: int, col: int|
        f.in_bounds(row, col) && (row != s.row || col != s.col) implies #[trigger] f.plotted(s).at(
        row,
        col,
    ) == f.at(row, col) by {
        lemma_plotted_cell(f, s, row, col);
    }
}

/// Drawing the same samples a second time changes nothing: every cell
/// already shows the nearest of them.
pub proof fn lemma_render_again(f: FrameView, samples: Seq<Sample>)
    requires
        f.wf(),
    ensures
        f.rendered(samples).rendered(samples) == f.rendered(samples),
{
    lemma_rendered_unmoved(f, samples, samples.len());
    assert(samples.take(samples.len() as int) =~= samples);
}

/// Drawing any first part of the samples a second time changes nothing.
proof fn lemma_rendered_unmoved(f: FrameView, samples: Seq<Sample>, k: nat)
    requires
        f.wf(),
        k <= samples.len(),
    ensures
        f.rendered(samples).rendered(samples.take(k as int)) == f.rendered(samples),
    decreases k,
{
    let g = f.rendered(samples);
    if k > 0 {
        let part = samples.take(k as int);
        let s = samples[k - 1];
        lemma_rendered_unmoved(f, samples, (k - 1) as nat);
        assert(part.drop_last() =~= samples.take(k - 1));
        assert(part.last() == s);
        lemma_rendered_measures(f, samples);
        if g.in_bounds(s.row as int, s.col as int) && shade_of(s.luminance as int) is Some {
            lemma_depth_buffer(f, samples, s.row as int, s.col as int);
            assert(samples[k - 1].lands_on(s.row as int, s.col as int));
        }
    }
}

/// Two frames of the same measures show the same, byte for byte, once each
/// was wiped and the same samples were drawn on it.
pub proof fn lemma_render_deterministic(f: FrameView, g: FrameView, samples: Seq<Sample>)
    requires
        f.width == g.width,
        f.height == g.height,
    ensures
        FrameView::blank(f.width, f.height).rendered(samples) == FrameView::blank(
            g.width,
            g.height,
        ).rendered(samples),
        FrameView::blank(f.width, f.height).rendered(samples).encoded() == FrameView::blank(
            g.width,
            g.height,
        ).rendered(samples).encoded(),
{
}

} // verus!
