//! The frame: a grid of glyphs and, cell for cell, a grid of inverse depths.
//!
//! A sample is drawn on its cell only if it is lit, falls on the screen, and
//! is nearer than what the cell already shows. The depth grid remembers how
//! near that is.

use vstd::prelude::*;
use crate::palette::{is_glyph, shade, shade_of, BLANK};
use crate::projection::Projection;
use crate::sample::{lemma_sweep_index, sample, sweep, Sample};
use crate::trig::Trig;

verus! {

/// One cell of a frame: what it shows, and how near that is.
#[derive(Clone, Copy, Debug, PartialEq, Eq)]
pub struct Cell {
    /// The glyph shown; [`BLANK`] where nothing was drawn.
    pub glyph: char,
    /// The inverse depth of the sample that was drawn; 0 where nothing was.
    pub inverse_depth: u64,
}

/// The cell on which nothing is drawn.
pub open spec fn blank_cell() -> Cell {
    Cell { glyph: BLANK, inverse_depth: 0 }
}

/// The byte that ends a row.
pub const LINE_FEED: u8 = 10;

/// The bytes that send the cursor of a terminal to the top left corner: a
/// carriage return, the escape sequence `ESC [ H`, and a line feed.
pub open spec fn home() -> Seq<u8> {
    seq![13u8, 27u8, 91u8, 72u8, 10u8]
}

/// A frame as a value: its measures, and its cells row by row.
pub ghost struct FrameView {
    pub width: nat,
    pub height: nat,
    pub cells: Seq<Cell>,
}

impl FrameView {
    /// The frame of the given measures on which nothing is drawn.
    pub open spec fn blank(width: nat, height: nat) -> FrameView {
        FrameView { width, height, cells: Seq::new(width * height, |i: int| blank_cell()) }
    }

    /// There is one cell for each place on the screen.
    pub open spec fn wf(self) -> bool {
        self.cells.len() == self.width * self.height
    }

    /// Whether `(row, col)` is a place on the screen.
    pub open spec fn in_bounds(self, row: int, col: int) -> bool {
        0 <= row < self.height && 0 <= col < self.width
    }

    /// The cell at `(row, col)`.
    pub open spec fn at(self, row: int, col: int) -> Cell {
        self.cells[row * self.width + col]
    }

    /// Whether the sample `s` is drawn: it is lit, it falls on the screen,
    /// and it is nearer than what its cell shows.
    pub open spec fn accepts(self, s: Sample) -> bool {
        &&& shade_of(s.luminance as int) is Some
        &&& self.in_bounds(s.row as int, s.col as int)
        &&& s.inverse_depth > self.at(s.row as int, s.col as int).inverse_depth
    }

    /// The frame after the sample `s` was offered to it.
    pub open spec fn plotted(self, s: Sample) -> FrameView {
        if self.accepts(s) {
            FrameView {
                cells: self.cells.update(
                    s.row * self.width + s.col,
                    Cell {
                        glyph: shade_of(s.luminance as int).unwrap(),
                        inverse_depth: s.inverse_depth,
                    },
                ),
                ..self
            }
        } else {
            self
        }
    }

    /// One row of the frame as it is written to a terminal: the glyphs of
    /// the row from left to right, then a line feed.
    pub open spec fn line(self, row: int) -> Seq<u8> {
        Seq::new(
            self.width + 1,
            |col: int|
                if col < self.width {
                    self.at(row, col).glyph as u8
                } else {
                    LINE_FEED
                },
        )
    }

    /// The first `rows` rows of the frame as they are written to a terminal.
    pub open spec fn lines(self, rows: nat) -> Seq<u8>
        decreases rows,
    {
        if rows == 0 {
            Seq::empty()
        } else {
            self.lines((rows - 1) as nat) + self.line(rows - 1)
        }
    }

    /// The frame as it is written to a terminal: the cursor is sent home,
    /// then every row follows, from the top.
    pub open spec fn encoded(self) -> Seq<u8> {
        home() + self.lines(self.height)
    }

    /// The frame after the samples were offered to it one after the other.
    pub open spec fn rendered(self, samples: Seq<Sample>) -> FrameView
        decreases samples.len(),
    {
        if samples.len() == 0 {
            self
        } else {
            self.rendered(samples.drop_last()).plotted(samples.last())
        }
    }
}

/// A screen's worth of cells: the glyphs that are shown, and the inverse
/// depth of each.
pub struct Frame {
    width: u16,
    height: u16,
    glyphs: Vec<u8>,
    depths: Vec<u64>,
}

impl View for Frame {
    type V = FrameView;

    closed spec fn view(&self) -> FrameView {
        FrameView {
            width: self.width as nat,
            height: self.height as nat,
            cells: Seq::new(
                self.glyphs@.len(),
                |i: int| Cell { glyph: self.glyphs@[i] as char, inverse_depth: self.depths@[i] },
            ),
        }
    }
}

/// A place on the screen has its own place among the cells.
pub proof fn lemma_cell_index(width: int, height: int, row: int, col: int)
    requires
        0 <= row < height,
        0 <= col < width,
    ensures
        0 <= row * width,
        0 <= row * width + col < width * height,
        width <= 65535 && height <= 65535 ==> width * height <= 4294836225,
{
    assert(row * width + col < width * height) by (nonlinear_arith)
        requires
            0 <= row < height,
            0 <= col < width,
    {
        assert((row + 1) * width <= height * width);
    }
    assert(row * width >= 0) by (nonlinear_arith)
        requires
            row >= 0,
            width >= 0,
    ;
    if width <= 65535 && height <= 65535 {
        assert(width * height <= 65535 * 65535) by (nonlinear_arith)
            requires
                0 <= width <= 65535,
                0 <= height <= 65535,
        ;
    }
}

impl Frame {
    /// Both grids have one entry for each place on the screen.
    #[verifier::type_invariant]
    closed spec fn inv(self) -> bool {
        &&& self.glyphs@.len() == self.width * self.height
        &&& self.depths@.len() == self.width * self.height
    }

    /// A frame of `width` by `height` cells on which nothing is drawn.
    pub fn new(width: u16, height: u16) -> (f: Frame)
        ensures
            f@ == FrameView::blank(width as nat, height as nat),
            f@.wf(),
    {
        let n: usize = Self::area(width, height);
        let mut glyphs: Vec<u8> = Vec::new();
        let mut depths: Vec<u64> = Vec::new();
        let mut i: usize = 0;
        while i < n
            invariant
                i <= n,
                glyphs@.len() == i,
                depths@.len() == i,
                forall|k: int| 0 <= k < i ==> glyphs@[k] == BLANK as u8 && depths@[k] == 0,
            decreases n - i,
        {
            glyphs.push(BLANK as u8);
            depths.push(0);
            i += 1;
        }
        let f = Frame { width, height, glyphs, depths };
        assert(f@.cells =~= FrameView::blank(width as nat, height as nat).cells);
        f
    }

    /// The number of cells of a screen.
    fn area(width: u16, height: u16) -> (n: usize)
        ensures
            n == width * height,
    {
        assert(width * height <= 65535 * 65535) by (nonlinear_arith)
            requires
                0 <= width <= 65535,
                0 <= height <= 65535,
        ;
        (width as usize) * (height as usize)
    }

    /// The number of columns.
    pub fn width(&self) -> (w: u16)
        ensures
            w == self@.width,
    {
        self.width
    }

    /// The number of rows.
    pub fn height(&self) -> (h: u16)
        ensures
            h == self@.height,
    {
        self.height
    }

    /// The cell at `(row, col)`, if that is a place on the screen.
    pub fn cell(&self, row: usize, col: usize) -> (r: Option<Cell>)
        ensures
            self@.wf(),
            r == (if self@.in_bounds(row as int, col as int) {
                Some(self@.at(row as int, col as int))
            } else {
                None
            }),
    {
        proof {
            use_type_invariant(self);
        }
        if row < self.height as usize && col < self.width as usize {
            proof {
                lemma_cell_index(self.width as int, self.height as int, row as int, col as int);
            }
            let i: usize = row * (self.width as usize) + col;
            Some(Cell { glyph: self.glyphs[i] as char, inverse_depth: self.depths[i] })
        } else {
            None
        }
    }

    /// Wipes the frame: every cell is blank again, at inverse depth 0.
    pub fn clear_state(&mut self)
        ensures
            final(self)@ == FrameView::blank(old(self)@.width, old(self)@.height),
            final(self)@.wf(),
    {
        proof {
            use_type_invariant(&*self);
        }
        let n: usize = Self::area(self.width, self.height);
        let mut i: usize = 0;
        while i < n
            invariant
                i <= n,
                n == self.width * self.height,
                self.width == old(self).width,
                self.height == old(self).height,
                self.glyphs@.len() == n,
                self.depths@.len() == n,
                forall|k: int| 0 <= k < i ==> self.glyphs@[k] == BLANK as u8 && self.depths@[k] == 0,
            decreases n - i,
        {
            self.glyphs[i] = BLANK as u8;
            self.depths[i] = 0;
            i += 1;
        }
        assert(self@.cells =~= FrameView::blank(old(self)@.width, old(self)@.height).cells);
    }

    /// Offers one sample to the frame. The sample is drawn, and its inverse
    /// depth recorded, if it is lit, falls on the screen and is nearer than
    /// what its cell shows; else the frame stays as it is.
    pub fn plot(&mut self, s: &Sample) -> (drawn: bool)
        ensures
            final(self)@ == old(self)@.plotted(*s),
            final(self)@.wf(),
            drawn == old(self)@.accepts(*s),
    {
        proof {
            use_type_invariant(&*self);
        }
        let glyph = match shade(s.luminance) {
            Some(g) => g,
            None => {
                return false;
            },
        };
        if s.row < 0 || s.row >= self.height as i64 || s.col < 0 || s.col >= self.width as i64 {
            return false;
        }
        proof {
            lemma_cell_index(self.width as int, self.height as int, s.row as int, s.col as int);
        }
        let i: usize = (s.row as usize) * (self.width as usize) + (s.col as usize);
        assert(self@.at(s.row as int, s.col as int).inverse_depth == self.depths@[i as int]);
        if s.inverse_depth > self.depths[i] {
            proof {
                lemma_glyph_is_byte(glyph);
            }
            self.depths[i] = s.inverse_depth;
            self.glyphs[i] = glyph as u8;
            assert(self@.cells =~= old(self)@.plotted(*s).cells);
            true
        } else {
            false
        }
    }
}

impl Frame {
    /// Draws the torus, turned by `a` and `b`, over what the frame shows.
    ///
    /// The surface is sampled at every `theta` of `thetas` and, for each, at
    /// every `phi` of `phis`, in that order; each sample is offered to the
    /// frame as [`Frame::plot`] does.
    pub fn render_frame(
        &mut self,
        p: &Projection,
        a: &Trig,
        b: &Trig,
        thetas: &[Trig],
        phis: &[Trig],
    )
        ensures
            final(self)@ == old(self)@.rendered(
                sweep(
                    *p,
                    old(self)@.width as int,
                    old(self)@.height as int,
                    *a,
                    *b,
                    thetas@,
                    phis@,
                ),
            ),
            final(self)@.wf(),
    {
        let width = self.width;
        let height = self.height;
        let ghost all = sweep(*p, width as int, height as int, *a, *b, thetas@, phis@);
        let ghost n = phis@.len() as int;
        let mut i: usize = 0;
        assert(all.take(0) =~= Seq::<Sample>::empty());
        while i < thetas.len()
            invariant
                i <= thetas@.len(),
                n == phis@.len(),
                self.width == width,
                self.height == height,
                width == old(self)@.width,
                height == old(self)@.height,
                all == sweep(*p, width as int, height as int, *a, *b, thetas@, phis@),
                0 <= i * n <= all.len(),
                self@ == old(self)@.rendered(all.take(i * n)),
            decreases thetas@.len() - i,
        {
            let mut j: usize = 0;
            while j < phis.len()
                invariant
                    i < thetas@.len(),
                    j <= phis@.len(),
                    n == phis@.len(),
                    self.width == width,
                    self.height == height,
                    width == old(self)@.width,
                    height == old(self)@.height,
                    all == sweep(*p, width as int, height as int, *a, *b, thetas@, phis@),
                    0 <= i * n + j <= all.len(),
                    self@ == old(self)@.rendered(all.take(i * n + j)),
                decreases phis@.len() - j,
            {
                let s = sample(p, width, height, a, b, &thetas[i], &phis[j]);
                proof {
                    let k = i * n + j;
                    lemma_sweep_index(
                        *p,
                        width as int,
                        height as int,
                        *a,
                        *b,
                        thetas@,
                        phis@,
                        i as int,
                        j as int,
                    );
                    assert(all.take(k + 1).drop_last() =~= all.take(k));
                    assert(all.take(k + 1).last() == s);
                }
                self.plot(&s);
                j += 1;
            }
            proof {
                assert((i + 1) * n == i * n + n) by (nonlinear_arith);
            }
            i += 1;
        }
        proof {
            use_type_invariant(&*self);
            assert(thetas@.len() * n == all.len());
            assert(all.take(all.len() as int) =~= all);
        }
    }
}

impl Frame {
    /// The bytes that show the frame on a terminal: they send the cursor
    /// home and then write the rows from the top, each followed by a line
    /// feed, over what the terminal showed before.
    pub fn encode(&self) -> (out: Vec<u8>)
        ensures
            out@ == self@.encoded(),
    {
        proof {
            use_type_invariant(self);
        }
        let width: usize = self.width as usize;
        let height: usize = self.height as usize;
        let mut out: Vec<u8> = Vec::new();
        out.push(13);
        out.push(27);
        out.push(91);
        out.push(72);
        out.push(LINE_FEED);
        assert(out@ =~= home() + self@.lines(0));
        let mut row: usize = 0;
        while row < height
            invariant
                row <= height,
                width == self.width,
                height == self.height,
                self.glyphs@.len() == self.width * self.height,
                out@ == home() + self@.lines(row as nat),
            decreases height - row,
        {
            let ghost line = self@.line(row as int);
            let mut col: usize = 0;
            assert(out@ =~= home() + self@.lines(row as nat) + line.take(0));
            while col < width
                invariant
                    row < height,
                    col <= width,
                    width == self.width,
                    height == self.height,
                    self.glyphs@.len() == self.width * self.height,
                    line == self@.line(row as int),
                    out@ == home() + self@.lines(row as nat) + line.take(col as int),
                decreases width - col,
            {
                proof {
                    lemma_cell_index(width as int, height as int, row as int, col as int);
                }
                let i: usize = row * width + col;
                out.push(self.glyphs[i]);
                assert(line[col as int] == self.glyphs@[i as int]);
                assert(line.take(col + 1) =~= line.take(col as int).push(line[col as int]));
                assert(out@ =~= home() + self@.lines(row as nat) + line.take(col + 1));
                col += 1;
            }
            out.push(LINE_FEED);
            assert(line =~= line.take(width as int).push(LINE_FEED));
            assert(out@ =~= home() + (self@.lines(row as nat) + line));
            row += 1;
        }
        out
    }
}

/// Every glyph of the palette is one byte, and stays itself when it is
/// stored as one.
pub proof fn lemma_glyph_is_byte(c: char)
    requires
        is_glyph(c),
    ensures
        (c as u8) as char == c,
        c as u8 != BLANK as u8,
{
}

} // verus!
