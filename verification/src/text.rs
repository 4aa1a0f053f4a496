use vstd::prelude::*;

use crate::font::FontData;
use crate::geometry::{Point, Size};
use crate::layout::{law_first_cell_at_start, law_layout_moves_with_start, moved_cells, horizontal_extent, vertical_extent, TextFlow, TextRun};
use crate::render::{cells_fit, cells_points, draw_cells};
use crate::style::TextStyle;

verus! {

/// Text drawn left to right in cells, lines top to bottom, from a start point.
#[derive(Debug, Clone, Copy)]
pub struct DrawableText<'a, C> {
    pub font_data: &'a FontData<'a>,
    pub text: &'a str,
    pub start_point: Point,
    pub style: TextStyle<C>,
}

/// Text drawn top to bottom in cells, columns left to right, from a start point.
#[derive(Debug, Clone, Copy)]
pub struct VerticalDrawableText<'a, C> {
    pub font_data: &'a FontData<'a>,
    pub text: &'a str,
    pub start_point: Point,
    pub style: TextStyle<C>,
}

/// The display points that drawing `run` with `font` sets, where every coordinate stays
/// within `i32`.
pub open spec fn run_points(font: FontData, run: TextRun) -> Seq<Point> {
    cells_points(font, run.cells_of(run.text@), run.alignment)
}

/// Drawing `run` with `font` keeps every coordinate within `i32`.
pub open spec fn run_fits(font: FontData, run: TextRun) -> bool {
    run.pen_fits() && cells_fit(font, run.cells_of(run.text@), run.alignment)
}

/// The display points that drawing a run sets, or `None` where a coordinate leaves the
/// `i32` range.
pub fn draw_run(font: &FontData, run: &TextRun) -> (res: Option<Vec<Point>>)
    ensures
        res is Some <==> run_fits(*font, *run),
        res matches Some(v) ==> v@ == run_points(*font, *run),
{
    match run.cells() {
        Some(cells) => draw_cells(font, &cells, run.alignment),
        None => None,
    }
}

impl<'a, C> DrawableText<'a, C> {
    /// Text at the origin.
    pub fn new(font_data: &'a FontData<'a>, text: &'a str, style: TextStyle<C>) -> (t: Self)
        ensures
            t.font_data == font_data,
            t.text == text,
            t.start_point == (Point { x: 0, y: 0 }),
            t.style == style,
    {
        DrawableText { font_data, text, start_point: Point::zero(), style }
    }

    /// The same text starting at `start_point`.
    pub fn at(self, start_point: Point) -> (t: Self)
        ensures
            t.font_data == self.font_data,
            t.text == self.text,
            t.start_point == start_point,
            t.style == self.style,
    {
        DrawableText { font_data: self.font_data, text: self.text, start_point, style: self.style }
    }

    pub open spec fn spec_run(&self) -> TextRun<'a> {
        TextRun {
            text: self.text,
            start: self.start_point,
            cells: self.style.cells,
            alignment: self.style.alignment,
            flow: TextFlow::Horizontal,
        }
    }

    pub fn run(&self) -> (r: TextRun<'a>)
        ensures
            r == self.spec_run(),
            r.text == self.text,
            r.start == self.start_point,
            r.cells == self.style.cells,
            r.alignment == self.style.alignment,
            r.flow == TextFlow::Horizontal,
    {
        TextRun::new(self.text, self.start_point, self.style.cells, self.style.alignment, TextFlow::Horizontal)
    }

    /// The size of the text: as wide as its widest line and as tall as its lines together.
    pub fn measure(&self) -> (s: Size)
        ensures
            s.width == horizontal_extent(self.style.cells, self.text@).0,
            s.height == horizontal_extent(self.style.cells, self.text@).1,
    {
        self.run().measure()
    }

    /// The display points that drawing the text sets, glyph by glyph in text order, or
    /// `None` where a coordinate leaves the `i32` range.
    pub fn draw_points(&self) -> (res: Option<Vec<Point>>)
        ensures
            res is Some <==> run_fits(*self.font_data, self.spec_run()),
            res matches Some(v) ==> v@ == run_points(*self.font_data, self.spec_run()),
    {
        draw_run(self.font_data, &self.run())
    }
}

impl<'a, C> VerticalDrawableText<'a, C> {
    /// Text at the origin.
    pub fn new(font_data: &'a FontData<'a>, text: &'a str, style: TextStyle<C>) -> (t: Self)
        ensures
            t.font_data == font_data,
            t.text == text,
            t.start_point == (Point { x: 0, y: 0 }),
            t.style == style,
    {
        VerticalDrawableText { font_data, text, start_point: Point::zero(), style }
    }

    /// The same text starting at `start_point`.
    pub fn at(self, start_point: Point) -> (t: Self)
        ensures
            t.font_data == self.font_data,
            t.text == self.text,
            t.start_point == start_point,
            t.style == self.style,
    {
        VerticalDrawableText { font_data: self.font_data, text: self.text, start_point, style: self.style }
    }

    pub open spec fn spec_run(&self) -> TextRun<'a> {
        TextRun {
            text: self.text,
            start: self.start_point,
            cells: self.style.cells,
            alignment: self.style.alignment,
            flow: TextFlow::Vertical,
        }
    }

    pub fn run(&self) -> (r: TextRun<'a>)
        ensures
            r == self.spec_run(),
            r.text == self.text,
            r.start == self.start_point,
            r.cells == self.style.cells,
            r.alignment == self.style.alignment,
            r.flow == TextFlow::Vertical,
    {
        TextRun::new(self.text, self.start_point, self.style.cells, self.style.alignment, TextFlow::Vertical)
    }

    /// The size of the text: as wide as its columns together and as tall as its tallest column.
    pub fn measure(&self) -> (s: Size)
        ensures
            s.width == vertical_extent(self.style.cells, self.text@).0,
            s.height == vertical_extent(self.style.cells, self.text@).1,
    {
        self.run().measure()
    }

    /// The display points that drawing the text sets, glyph by glyph in text order, or
    /// `None` where a coordinate leaves the `i32` range.
    pub fn draw_points(&self) -> (res: Option<Vec<Point>>)
        ensures
            res is Some <==> run_fits(*self.font_data, self.spec_run()),
            res matches Some(v) ==> v@ == run_points(*self.font_data, self.spec_run()),
    {
        draw_run(self.font_data, &self.run())
    }
}

/// Horizontal text is laid out from its start point: where it starts with a character
/// other than a newline, its first cell, whose glyph is drawn first, has its origin at
/// the point that `at` (or `new`) gave.
pub proof fn law_text_starts_at_start_point<'a, C>(t: DrawableText<'a, C>)
    requires
        t.text@.len() > 0,
        t.text@[0] != '\n',
    ensures
        t.spec_run().cells_of(t.text@).len() > 0,
        t.spec_run().cells_of(t.text@)[0].origin == t.start_point,
        t.spec_run().cells_of(t.text@)[0].ch == t.text@[0],
{
    law_first_cell_at_start(t.spec_run());
}

/// Vertical text is laid out from its start point, as horizontal text is.
pub proof fn law_vertical_text_starts_at_start_point<'a, C>(t: VerticalDrawableText<'a, C>)
    requires
        t.text@.len() > 0,
        t.text@[0] != '\n',
    ensures
        t.spec_run().cells_of(t.text@).len() > 0,
        t.spec_run().cells_of(t.text@)[0].origin == t.start_point,
        t.spec_run().cells_of(t.text@)[0].ch == t.text@[0],
{
    law_first_cell_at_start(t.spec_run());
}

/// Drawing a text from one start point or from another places the same cells, each moved
/// by the difference of the two points (wherever the pen stays within `i32` for both):
/// drawing a text at a point is drawing it at the origin moved by that point.
pub proof fn law_text_moves_with_start_point<'a, C>(t: DrawableText<'a, C>, u: DrawableText<'a, C>)
    requires
        u.text == t.text,
        u.style == t.style,
        t.spec_run().pen_fits(),
        u.spec_run().pen_fits(),
    ensures
        moved_cells(
            t.spec_run().cells_of(t.text@),
            u.spec_run().cells_of(u.text@),
            u.start_point.x - t.start_point.x,
            u.start_point.y - t.start_point.y,
        ),
{
    law_layout_moves_with_start(t.spec_run(), u.spec_run());
}

/// Vertical text moves with its start point, as horizontal text does.
pub proof fn law_vertical_text_moves_with_start_point<'a, C>(
    t: VerticalDrawableText<'a, C>,
    u: VerticalDrawableText<'a, C>,
)
    requires
        u.text == t.text,
        u.style == t.style,
        t.spec_run().pen_fits(),
        u.spec_run().pen_fits(),
    ensures
        moved_cells(
            t.spec_run().cells_of(t.text@),
            u.spec_run().cells_of(u.text@),
            u.start_point.x - t.start_point.x,
            u.start_point.y - t.start_point.y,
        ),
{
    law_layout_moves_with_start(t.spec_run(), u.spec_run());
}

} // verus!
