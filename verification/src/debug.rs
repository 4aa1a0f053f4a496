use vstd::prelude::*;

use crate::font::FontData;
use crate::geometry::{Point, Size};
use crate::layout::{in_i32, signed, Cell, TextRun};
use crate::render::{
    design_box_bounds, design_fits, design_origin, design_size, glyph_box_bounds, glyph_corner,
    glyph_origin_fits,
};
use crate::style::Alignment;
use crate::cell_text;
use crate::text::{DrawableText, VerticalDrawableText};

verus! {

/// Which box of every cell a debug drawing outlines.
#[derive(Debug, Clone, Copy, PartialEq, Eq, Structural)]
pub enum DebugBoxKind {
    Design,
    Cell,
    Glyph,
}

/// The top and bottom edges of an outline, for the `n` columns from `ox`.
pub open spec fn edge_rows(ox: int, oy: int, bottom: int, n: int) -> Seq<Point>
    decreases n,
{
    if n <= 0 {
        Seq::empty()
    } else {
        let x = ox + n - 1;
        let prev = edge_rows(ox, oy, bottom, n - 1).push(Point { x: x as i32, y: oy as i32 });
        if bottom != oy {
            prev.push(Point { x: x as i32, y: bottom as i32 })
        } else {
            prev
        }
    }
}

/// The left and right edges of an outline, for the `n` rows from `y0`.
pub open spec fn edge_columns(ox: int, right: int, y0: int, n: int) -> Seq<Point>
    decreases n,
{
    if n <= 0 {
        Seq::empty()
    } else {
        let y = y0 + n - 1;
        let prev = edge_columns(ox, right, y0, n - 1).push(Point { x: ox as i32, y: y as i32 });
        if right != ox {
            prev.push(Point { x: right as i32, y: y as i32 })
        } else {
            prev
        }
    }
}

/// The corners of an outline: its right column and bottom row.
pub open spec fn outline_far_edges(origin: Point, size: Size) -> (int, int) {
    (origin.x + signed(size.width) - 1, origin.y + signed(size.height) - 1)
}

/// The points of a one-pixel outline of a box: top and bottom rows column by column, then
/// the left and right columns between them row by row; nothing for an empty box.
pub open spec fn outline_points(origin: Point, size: Size) -> Seq<Point> {
    if size.width == 0 || size.height == 0 {
        Seq::empty()
    } else {
        let (right, bottom) = outline_far_edges(origin, size);
        edge_rows(origin.x as int, origin.y as int, bottom, right - origin.x + 1) + edge_columns(
            origin.x as int,
            right,
            origin.y + 1,
            bottom - (origin.y + 1),
        )
    }
}

/// Outlining a box keeps every coordinate within `i32`.
pub open spec fn outline_fits(origin: Point, size: Size) -> bool {
    size.width == 0 || size.height == 0 || {
        &&& in_i32(origin.x + signed(size.width))
        &&& in_i32(origin.x + signed(size.width) - 1)
        &&& in_i32(origin.y + signed(size.height))
        &&& in_i32(origin.y + signed(size.height) - 1)
        &&& in_i32(origin.y + 1)
    }
}

/// The points of a one-pixel outline of a box, or `None` where a coordinate leaves the
/// `i32` range.
pub fn draw_outline(origin: Point, size: Size) -> (res: Option<Vec<Point>>)
    ensures
        res is Some <==> outline_fits(origin, size),
        res matches Some(v) ==> v@ == outline_points(origin, size),
{
    let mut out: Vec<Point> = Vec::new();
    if size.width == 0 || size.height == 0 {
        return Some(out);
    }
    let right = match origin.x.checked_add(size.width as i32) {
        Some(v) => match v.checked_sub(1) {
            Some(r) => r,
            None => return None,
        },
        None => return None,
    };
    let bottom = match origin.y.checked_add(size.height as i32) {
        Some(v) => match v.checked_sub(1) {
            Some(b) => b,
            None => return None,
        },
        None => return None,
    };
    let first_row = match origin.y.checked_add(1) {
        Some(v) => v,
        None => return None,
    };
    let ghost ox = origin.x as int;
    let ghost oy = origin.y as int;
    let mut x: i64 = origin.x as i64;
    while x <= right as i64
        invariant
            ox == origin.x,
            oy == origin.y,
            ox <= x,
            x <= right + 1 || x == ox,
            out@ == edge_rows(ox, oy, bottom as int, x - ox),
        decreases right + 1 - x,
    {
        out.push(Point::new(x as i32, origin.y));
        if bottom != origin.y {
            out.push(Point::new(x as i32, bottom));
        }
        x = x + 1;
    }
    let ghost rows = out@;
    let mut y: i64 = first_row as i64;
    while y < bottom as i64
        invariant
            ox == origin.x,
            first_row == oy + 1,
            first_row <= y,
            y <= bottom || y == first_row,
            out@ == rows + edge_columns(ox, right as int, first_row as int, y - first_row),
        decreases bottom - y,
    {
        out.push(Point::new(origin.x, y as i32));
        if right != origin.x {
            out.push(Point::new(right, y as i32));
        }
        y = y + 1;
    }
    proof {
        if x != right + 1 {
            assert(edge_rows(ox, oy, bottom as int, x - ox) =~= edge_rows(ox, oy, bottom as int, right - ox + 1));
        }
        if y != bottom {
            assert(edge_columns(ox, right as int, first_row as int, y - first_row) =~= edge_columns(ox, right as int, first_row as int, bottom - (oy + 1)));
        }
    }
    Some(out)
}


/// The box of a cell that a debug drawing of `kind` outlines, as its corner and size: the
/// design square, the cell itself, or the glyph's bitmap box (none for a character
/// without a glyph).
pub open spec fn cell_box(font: FontData, cell: Cell, alignment: Alignment, kind: DebugBoxKind) -> Option<(int, int, Size)> {
    match kind {
        DebugBoxKind::Design => {
            let d = design_origin(font, cell.origin, cell.size, alignment);
            Some((d.0, d.1, design_size(font)))
        },
        DebugBoxKind::Cell => Some((cell.origin.x as int, cell.origin.y as int, cell.size)),
        DebugBoxKind::Glyph => match font.glyph_slot(cell.ch) {
            Some(i) => {
                let g = font.glyphs@[i];
                let c = glyph_corner(font, g, cell.origin, cell.size, alignment);
                Some((c.0, c.1, Size { width: g.width as u32, height: g.height as u32 }))
            },
            None => None,
        },
    }
}

/// Finding a cell's box keeps every coordinate within `i32`.
pub open spec fn cell_box_fits(font: FontData, cell: Cell, alignment: Alignment, kind: DebugBoxKind) -> bool {
    match kind {
        DebugBoxKind::Design => design_fits(font, cell.origin, cell.size, alignment),
        DebugBoxKind::Cell => true,
        DebugBoxKind::Glyph => match font.glyph_slot(cell.ch) {
            Some(i) => glyph_origin_fits(font, font.glyphs@[i], cell.origin, cell.size, alignment),
            None => true,
        },
    }
}

/// The box of a cell that a debug drawing of `kind` outlines (`Some(None)` where there is
/// none), or `None` where a coordinate leaves the `i32` range.
pub fn box_bounds(font: &FontData, ch: char, cell_origin: Point, cell: Size, alignment: Alignment, kind: DebugBoxKind) -> (res: Option<Option<(Point, Size)>>)
    ensures
        res is Some <==> cell_box_fits(*font, Cell { ch, origin: cell_origin, size: cell }, alignment, kind),
        res matches Some(b) ==> match cell_box(*font, Cell { ch, origin: cell_origin, size: cell }, alignment, kind) {
            Some(t) => b matches Some(pb) && pb.0.x == t.0 && pb.0.y == t.1 && pb.1 == t.2,
            None => b is None,
        },
{
    match kind {
        DebugBoxKind::Design => match design_box_bounds(font, cell_origin, cell, alignment) {
            Some(b) => Some(Some(b)),
            None => None,
        },
        DebugBoxKind::Cell => Some(Some((cell_origin, cell))),
        DebugBoxKind::Glyph => match font.glyph(ch) {
            Some(glyph) => match glyph_box_bounds(font, glyph, cell_origin, cell, alignment) {
                Some(b) => Some(Some(b)),
                None => None,
            },
            None => Some(None),
        },
    }
}

/// The outline points of one cell's box.
#[verifier::opaque]
pub open spec fn cell_box_points(font: FontData, cell: Cell, alignment: Alignment, kind: DebugBoxKind) -> Seq<Point> {
    match cell_box(font, cell, alignment, kind) {
        Some(b) => outline_points(Point { x: b.0 as i32, y: b.1 as i32 }, b.2),
        None => Seq::empty(),
    }
}

#[verifier::opaque]
pub open spec fn cell_outline_fits(font: FontData, cell: Cell, alignment: Alignment, kind: DebugBoxKind) -> bool {
    &&& cell_box_fits(font, cell, alignment, kind)
    &&& match cell_box(font, cell, alignment, kind) {
        Some(b) => outline_fits(Point { x: b.0 as i32, y: b.1 as i32 }, b.2),
        None => true,
    }
}

fn draw_cell_box(font: &FontData, cell: Cell, alignment: Alignment, kind: DebugBoxKind) -> (res: Option<Vec<Point>>)
    ensures
        res is Some <==> cell_outline_fits(*font, cell, alignment, kind),
        res matches Some(v) ==> v@ == cell_box_points(*font, cell, alignment, kind),
{
    reveal(cell_box_points);
    reveal(cell_outline_fits);
    match box_bounds(font, cell.ch, cell.origin, cell.size, alignment, kind) {
        Some(Some((origin, size))) => draw_outline(origin, size),
        Some(None) => Some(Vec::new()),
        None => None,
    }
}

/// The outline points of the boxes of `cells`, cell after cell.
pub open spec fn boxes_points(font: FontData, cells: Seq<Cell>, alignment: Alignment, kind: DebugBoxKind) -> Seq<Point>
    decreases cells.len(),
{
    if cells.len() == 0 {
        Seq::empty()
    } else {
        boxes_points(font, cells.drop_last(), alignment, kind) + cell_box_points(font, cells.last(), alignment, kind)
    }
}

pub open spec fn boxes_fit(font: FontData, run: TextRun, kind: DebugBoxKind) -> bool {
    &&& run.pen_fits()
    &&& forall|k: int| 0 <= k < run.cells_of(run.text@).len() ==> #[trigger] cell_outline_fits(font, run.cells_of(run.text@)[k], run.alignment, kind)
}

/// The points that outlining the boxes of `kind` of every cell of a run sets, or `None`
/// where a coordinate leaves the `i32` range.
pub fn draw_text_boxes(font: &FontData, run: &TextRun, kind: DebugBoxKind) -> (res: Option<Vec<Point>>)
    ensures
        res is Some <==> boxes_fit(*font, *run, kind),
        res matches Some(v) ==> v@ == boxes_points(*font, run.cells_of(run.text@), run.alignment, kind),
{
    let cells = match run.cells() {
        Some(c) => c,
        None => return None,
    };
    let mut out: Vec<Point> = Vec::new();
    proof {
        assert(cells@.take(0) =~= Seq::<Cell>::empty());
    }
    for k in 0..cells.len()
        invariant
            cells@ == run.cells_of(run.text@),
            out@ == boxes_points(*font, cells@.take(k as int), run.alignment, kind),
            forall|j: int| 0 <= j < k ==> #[trigger] cell_outline_fits(*font, cells@[j], run.alignment, kind),
    {
        proof {
            assert(cells@.take(k + 1).drop_last() =~= cells@.take(k as int));
        }
        let mut points = match draw_cell_box(font, cells[k], run.alignment, kind) {
            Some(v) => v,
            None => return None,
        };
        out.append(&mut points);
    }
    proof {
        assert(cells@.take(cells@.len() as int) =~= cells@);
    }
    Some(out)
}

impl<'a, C> DrawableText<'a, C> {
    /// The points that outlining the boxes of `kind` of every cell sets.
    pub fn draw_debug_boxes(&self, kind: DebugBoxKind) -> (res: Option<Vec<Point>>)
        ensures
            res is Some <==> boxes_fit(*self.font_data, self.spec_run(), kind),
            res matches Some(v) ==> v@ == boxes_points(*self.font_data, self.spec_run().cells_of(self.text@), self.style.alignment, kind),
    {
        draw_text_boxes(self.font_data, &self.run(), kind)
    }

    pub fn draw_design_boxes(&self) -> (res: Option<Vec<Point>>)
        ensures
            res is Some <==> boxes_fit(*self.font_data, self.spec_run(), DebugBoxKind::Design),
            res matches Some(v) ==> v@ == boxes_points(*self.font_data, self.spec_run().cells_of(self.text@), self.style.alignment, DebugBoxKind::Design),
    {
        self.draw_debug_boxes(DebugBoxKind::Design)
    }

    pub fn draw_cell_boxes(&self) -> (res: Option<Vec<Point>>)
        ensures
            res is Some <==> boxes_fit(*self.font_data, self.spec_run(), DebugBoxKind::Cell),
            res matches Some(v) ==> v@ == boxes_points(*self.font_data, self.spec_run().cells_of(self.text@), self.style.alignment, DebugBoxKind::Cell),
    {
        self.draw_debug_boxes(DebugBoxKind::Cell)
    }

    pub fn draw_glyph_boxes(&self) -> (res: Option<Vec<Point>>)
        ensures
            res is Some <==> boxes_fit(*self.font_data, self.spec_run(), DebugBoxKind::Glyph),
            res matches Some(v) ==> v@ == boxes_points(*self.font_data, self.spec_run().cells_of(self.text@), self.style.alignment, DebugBoxKind::Glyph),
    {
        self.draw_debug_boxes(DebugBoxKind::Glyph)
    }
}

impl<'a, C> VerticalDrawableText<'a, C> {
    /// The points that outlining the boxes of `kind` of every cell sets.
    pub fn draw_debug_boxes(&self, kind: DebugBoxKind) -> (res: Option<Vec<Point>>)
        ensures
            res is Some <==> boxes_fit(*self.font_data, self.spec_run(), kind),
            res matches Some(v) ==> v@ == boxes_points(*self.font_data, self.spec_run().cells_of(self.text@), self.style.alignment, kind),
    {
        draw_text_boxes(self.font_data, &self.run(), kind)
    }

    pub fn draw_design_boxes(&self) -> (res: Option<Vec<Point>>)
        ensures
            res is Some <==> boxes_fit(*self.font_data, self.spec_run(), DebugBoxKind::Design),
            res matches Some(v) ==> v@ == boxes_points(*self.font_data, self.spec_run().cells_of(self.text@), self.style.alignment, DebugBoxKind::Design),
    {
        self.draw_debug_boxes(DebugBoxKind::Design)
    }

    pub fn draw_cell_boxes(&self) -> (res: Option<Vec<Point>>)
        ensures
            res is Some <==> boxes_fit(*self.font_data, self.spec_run(), DebugBoxKind::Cell),
            res matches Some(v) ==> v@ == boxes_points(*self.font_data, self.spec_run().cells_of(self.text@), self.style.alignment, DebugBoxKind::Cell),
    {
        self.draw_debug_boxes(DebugBoxKind::Cell)
    }

    pub fn draw_glyph_boxes(&self) -> (res: Option<Vec<Point>>)
        ensures
            res is Some <==> boxes_fit(*self.font_data, self.spec_run(), DebugBoxKind::Glyph),
            res matches Some(v) ==> v@ == boxes_points(*self.font_data, self.spec_run().cells_of(self.text@), self.style.alignment, DebugBoxKind::Glyph),
    {
        self.draw_debug_boxes(DebugBoxKind::Glyph)
    }
}
impl<'a, C> cell_text::DrawableText<'a, C> {
    /// The points that outlining, in every cell, the font's design square (its original
    /// size, centred in the cell) sets.
    pub fn draw_original_size_debug_boxes(&self) -> (res: Option<Vec<Point>>)
        ensures
            res is Some <==> boxes_fit(*self.font_data, self.spec_run(), DebugBoxKind::Design),
            res matches Some(v) ==> v@ == boxes_points(*self.font_data, self.spec_run().cells_of(self.text@), Alignment::spec_center(), DebugBoxKind::Design),
    {
        draw_text_boxes(self.font_data, &self.run(), DebugBoxKind::Design)
    }

    /// The points that outlining every (resized) cell sets.
    pub fn draw_resized_debug_boxes(&self) -> (res: Option<Vec<Point>>)
        ensures
            res is Some <==> boxes_fit(*self.font_data, self.spec_run(), DebugBoxKind::Cell),
            res matches Some(v) ==> v@ == boxes_points(*self.font_data, self.spec_run().cells_of(self.text@), Alignment::spec_center(), DebugBoxKind::Cell),
    {
        draw_text_boxes(self.font_data, &self.run(), DebugBoxKind::Cell)
    }
}

} // verus!
