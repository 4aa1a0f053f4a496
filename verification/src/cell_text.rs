use vstd::prelude::*;

use crate::font::FontData;
use crate::geometry::{Point, Size};
use crate::layout::{law_first_cell_at_start, law_layout_moves_with_start, moved_cells, horizontal_extent, vertical_extent, TextFlow, TextRun};
use crate::style::{Alignment, CellSizes};
use crate::text::{draw_run, run_fits, run_points};

verus! {

/// Text drawn left to right from a start point in fixed ASCII and CJK cells, each glyph's
/// design square centred in its cell.
#[derive(Debug, Clone, Copy)]
pub struct DrawableText<'a, C> {
    pub font_data: &'a FontData<'a>,
    pub text: &'a str,
    pub start_point: Point,
    pub cell_sizes: CellSizes,
    pub color: C,
}

/// Text drawn top to bottom from a start point in fixed ASCII and CJK cells, each glyph's
/// design square centred in its cell.
#[derive(Debug, Clone, Copy)]
pub struct VerticalDrawableText<'a, C> {
    pub font_data: &'a FontData<'a>,
    pub text: &'a str,
    pub start_point: Point,
    pub cell_sizes: CellSizes,
    pub color: C,
}

impl<'a, C> DrawableText<'a, C> {
    pub fn new(
        font_data: &'a FontData<'a>,
        text: &'a str,
        start_point: Point,
        ascii_cell_size: Size,
        cjk_cell_size: Size,
        color: C,
    ) -> (t: Self)
        requires
            ascii_cell_size.height == cjk_cell_size.height,
        ensures
            t.font_data == font_data,
            t.text == text,
            t.start_point == start_point,
            t.cell_sizes == (CellSizes { ascii: ascii_cell_size, cjk: cjk_cell_size }),
            t.color == color,
    {
        Self::with_cell_sizes(font_data, text, start_point, CellSizes::new(ascii_cell_size, cjk_cell_size), color)
    }

    pub fn with_cell_sizes(
        font_data: &'a FontData<'a>,
        text: &'a str,
        start_point: Point,
        cell_sizes: CellSizes,
        color: C,
    ) -> (t: Self)
        ensures
            t.font_data == font_data,
            t.text == text,
            t.start_point == start_point,
            t.cell_sizes == cell_sizes,
            t.color == color,
    {
        DrawableText { font_data, text, start_point, cell_sizes, color }
    }

    pub open spec fn spec_run(&self) -> TextRun<'a> {
        TextRun {
            text: self.text,
            start: self.start_point,
            cells: self.cell_sizes,
            alignment: Alignment::spec_center(),
            flow: TextFlow::Horizontal,
        }
    }

    pub fn run(&self) -> (r: TextRun<'a>)
        ensures
            r == self.spec_run(),
            r.text == self.text,
            r.start == self.start_point,
            r.cells == self.cell_sizes,
            r.alignment == Alignment::spec_center(),
            r.flow == TextFlow::Horizontal,
    {
        TextRun::new(self.text, self.start_point, self.cell_sizes, Alignment::center(), TextFlow::Horizontal)
    }

    /// The size of the text: as wide as its widest line and as tall as its lines together.
    pub fn measure(&self) -> (s: Size)
        ensures
            s.width == horizontal_extent(self.cell_sizes, self.text@).0,
            s.height == horizontal_extent(self.cell_sizes, self.text@).1,
    {
        self.run().measure()
    }

    /// The display points that drawing the text sets, glyph by glyph in text order, or
    /// `None` where a coordinate leaves the `i32` range.
    pub fn draw_points(&self) -> (res: Option<Vec<Point>>)
        ensures
            res is Some <==> run_fits(*self.font_data, self.spec_run()),
            res matches Some(v) ==> v@ == run_points(*self.font_data, self.spec_run()),
    {
        draw_run(self.font_data, &self.run())
    }
}

impl<'a, C> VerticalDrawableText<'a, C> {
    pub fn new(
        font_data: &'a FontData<'a>,
        text: &'a str,
        start_point: Point,
        ascii_cell_size: Size,
        cjk_cell_size: Size,
        color: C,
    ) -> (t: Self)
        requires
            ascii_cell_size.height == cjk_cell_size.height,
        ensures
            t.font_data == font_data,
            t.text == text,
            t.start_point == start_point,
            t.cell_sizes == (CellSizes { ascii: ascii_cell_size, cjk: cjk_cell_size }),
            t.color == color,
    {
        Self::with_cell_sizes(font_data, text, start_point, CellSizes::new(ascii_cell_size, cjk_cell_size), color)
    }

    pub fn with_cell_sizes(
        font_data: &'a FontData<'a>,
        text: &'a str,
        start_point: Point,
        cell_sizes: CellSizes,
        color: C,
    ) -> (t: Self)
        ensures
            t.font_data == font_data,
            t.text == text,
            t.start_point == start_point,
            t.cell_sizes == cell_sizes,
            t.color == color,
    {
        VerticalDrawableText { font_data, text, start_point, cell_sizes, color }
    }

    pub open spec fn spec_run(&self) -> TextRun<'a> {
        TextRun {
            text: self.text,
            start: self.start_point,
            cells: self.cell_sizes,
            alignment: Alignment::spec_center(),
            flow: TextFlow::Vertical,
        }
    }

    pub fn run(&self) -> (r: TextRun<'a>)
        ensures
            r == self.spec_run(),
            r.text == self.text,
            r.start == self.start_point,
            r.cells == self.cell_sizes,
            r.alignment == Alignment::spec_center(),
            r.flow == TextFlow::Vertical,
    {
        TextRun::new(self.text, self.start_point, self.cell_sizes, Alignment::center(), TextFlow::Vertical)
    }

    /// The size of the text: as wide as its columns together and as tall as its tallest column.
    pub fn measure(&self) -> (s: Size)
        ensures
            s.width == vertical_extent(self.cell_sizes, self.text@).0,
            s.height == vertical_extent(self.cell_sizes, self.text@).1,
    {
        self.run().measure()
    }

    /// The display points that drawing the text sets, glyph by glyph in text order, or
    /// `None` where a coordinate leaves the `i32` range.
    pub fn draw_points(&self) -> (res: Option<Vec<Point>>)
        ensures
            res is Some <==> run_fits(*self.font_data, self.spec_run()),
            res matches Some(v) ==> v@ == run_points(*self.font_data, self.spec_run()),
    {
        draw_run(self.font_data, &self.run())
    }
}

/// Horizontal text is laid out from its start point: where it starts with a character
/// other than a newline, its first cell, whose glyph is drawn first, has its origin at
/// the point that `at` (or `new`) gave.
pub proof fn law_text_starts_at_start_point<'a, C>(t: DrawableText<'a, C>)
    requires
        t.text@.len() > 0,
        t.text@[0] != '\n',
    ensures
        t.spec_run().cells_of(t.text@).len() > 0,
        t.spec_run().cells_of(t.text@)[0].origin == t.start_point,
        t.spec_run().cells_of(t.text@)[0].ch == t.text@[0],
{
    law_first_cell_at_start(t.spec_run());
}

/// Vertical text is laid out from its start point, as horizontal text is.
pub proof fn law_vertical_text_starts_at_start_point<'a, C>(t: VerticalDrawableText<'a, C>)
    requires
        t.text@.len() > 0,
        t.text@[0] != '\n',
    ensures
        t.spec_run().cells_of(t.text@).len() > 0,
        t.spec_run().cells_of(t.text@)[0].origin == t.start_point,
        t.spec_run().cells_of(t.text@)[0].ch == t.text@[0],
{
    law_first_cell_at_start(t.spec_run());
}

/// Drawing a text from one start point or from another places the same cells, each moved
/// by the difference of the two points (wherever the pen stays within `i32` for both).
pub proof fn law_text_moves_with_start_point<'a, C>(t: DrawableText<'a, C>, u: DrawableText<'a, C>)
    requires
        u.text == t.text,
        u.cell_sizes == t.cell_sizes,
        t.spec_run().pen_fits(),
        u.spec_run().pen_fits(),
    ensures
        moved_cells(
            t.spec_run().cells_of(t.text@),
            u.spec_run().cells_of(u.text@),
            u.start_point.x - t.start_point.x,
            u.start_point.y - t.start_point.y,
        ),
{
    law_layout_moves_with_start(t.spec_run(), u.spec_run());
}

/// Vertical text moves with its start point, as horizontal text does.
pub proof fn law_vertical_text_moves_with_start_point<'a, C>(
    t: VerticalDrawableText<'a, C>,
    u: VerticalDrawableText<'a, C>,
)
    requires
        u.text == t.text,
        u.cell_sizes == t.cell_sizes,
        t.spec_run().pen_fits(),
        u.spec_run().pen_fits(),
    ensures
        moved_cells(
            t.spec_run().cells_of(t.text@),
            u.spec_run().cells_of(u.text@),
            u.start_point.x - t.start_point.x,
            u.start_point.y - t.start_point.y,
        ),
{
    law_layout_moves_with_start(t.spec_run(), u.spec_run());
}

} // verus!
