use vstd::prelude::*;

use crate::font::{FontData, Glyph};
use crate::geometry::{Point, Size};
use crate::layout::{in_i32, Cell};
use crate::style::Alignment;

verus! {

/// The font's design square, `char_size` pixels on each side.
pub open spec fn design_size(font: FontData) -> Size {
    Size { width: font.char_size as u32, height: font.char_size as u32 }
}

/// The top-left corner of the design square inside a cell, placed by `alignment`.
pub open spec fn design_origin(font: FontData, cell_origin: Point, cell: Size, alignment: Alignment) -> (int, int) {
    let off = alignment.spec_offset(cell, design_size(font));
    (cell_origin.x + off.0, cell_origin.y + off.1)
}

/// Placing the design square in the cell stays within `i32`.
pub open spec fn design_fits(font: FontData, cell_origin: Point, cell: Size, alignment: Alignment) -> bool {
    &&& alignment.spec_fits(cell, design_size(font))
    &&& in_i32(design_origin(font, cell_origin, cell, alignment).0)
    &&& in_i32(design_origin(font, cell_origin, cell, alignment).1)
}

/// The design square of a cell, or `None` where its placement leaves the `i32` range.
pub fn design_box_bounds(font: &FontData, cell_origin: Point, cell: Size, alignment: Alignment) -> (res: Option<(Point, Size)>)
    ensures
        res is Some <==> design_fits(*font, cell_origin, cell, alignment),
        res matches Some(b) ==> b.0.x == design_origin(*font, cell_origin, cell, alignment).0
            && b.0.y == design_origin(*font, cell_origin, cell, alignment).1
            && b.1 == design_size(*font),
{
    let size = Size::new(font.char_size as u32, font.char_size as u32);
    if !alignment.fits(cell, size) {
        return None;
    }
    let (x, y) = alignment.offset(cell, size);
    match (cell_origin.x.checked_add(x), cell_origin.y.checked_add(y)) {
        (Some(ox), Some(oy)) => Some((Point::new(ox, oy), size)),
        _ => None,
    }
}

/// The intermediate sums that place a glyph: the design square's corner, then the glyph's
/// left edge, then the baseline row (`char_size` below the corner), then the glyph's top.
pub open spec fn glyph_steps(font: FontData, glyph: Glyph, cell_origin: Point, cell: Size, alignment: Alignment) -> (int, int, int) {
    let d = design_origin(font, cell_origin, cell, alignment);
    let baseline = d.1 + ((font.char_size as u32) as i32) as int;
    (d.0 + glyph.x_offset, baseline, baseline - glyph.y_offset)
}

/// The top-left corner of a glyph's bitmap inside a cell: right of the design square's
/// corner by the glyph's x offset, and `y_offset` rows above the design square's bottom.
pub open spec fn glyph_corner(font: FontData, glyph: Glyph, cell_origin: Point, cell: Size, alignment: Alignment) -> (int, int) {
    let s = glyph_steps(font, glyph, cell_origin, cell, alignment);
    (s.0, s.2)
}

pub open spec fn glyph_origin_fits(font: FontData, glyph: Glyph, cell_origin: Point, cell: Size, alignment: Alignment) -> bool {
    let s = glyph_steps(font, glyph, cell_origin, cell, alignment);
    &&& design_fits(font, cell_origin, cell, alignment)
    &&& in_i32(s.0)
    &&& in_i32(s.1)
    &&& in_i32(s.2)
}

/// Where a glyph's bitmap starts inside a cell, or `None` where that leaves the `i32` range.
pub fn glyph_origin(font: &FontData, glyph: &Glyph, cell_origin: Point, cell: Size, alignment: Alignment) -> (res: Option<Point>)
    ensures
        res is Some <==> glyph_origin_fits(*font, *glyph, cell_origin, cell, alignment),
        res matches Some(p) ==> p.x == glyph_corner(*font, *glyph, cell_origin, cell, alignment).0
            && p.y == glyph_corner(*font, *glyph, cell_origin, cell, alignment).1,
{
    let (design, _) = match design_box_bounds(font, cell_origin, cell, alignment) {
        Some(b) => b,
        None => return None,
    };
    let x = match design.x.checked_add(glyph.x_offset as i32) {
        Some(v) => v,
        None => return None,
    };
    let baseline = match design.y.checked_add((font.char_size as u32) as i32) {
        Some(v) => v,
        None => return None,
    };
    match baseline.checked_sub(glyph.y_offset as i32) {
        Some(y) => Some(Point::new(x, y)),
        None => None,
    }
}

/// The box of a glyph's bitmap inside a cell.
pub fn glyph_box_bounds(font: &FontData, glyph: &Glyph, cell_origin: Point, cell: Size, alignment: Alignment) -> (res: Option<(Point, Size)>)
    ensures
        res is Some <==> glyph_origin_fits(*font, *glyph, cell_origin, cell, alignment),
        res matches Some(b) ==> b.0.x == glyph_corner(*font, *glyph, cell_origin, cell, alignment).0
            && b.0.y == glyph_corner(*font, *glyph, cell_origin, cell, alignment).1
            && b.1 == (Size { width: glyph.width as u32, height: glyph.height as u32 }),
{
    match glyph_origin(font, glyph, cell_origin, cell, alignment) {
        Some(p) => Some((p, Size::new(glyph.width as u32, glyph.height as u32))),
        None => None,
    }
}


/// The set pixels among the first `n` pixels of row `y` of a glyph drawn at `(ox, oy)`,
/// left to right.
pub open spec fn row_points(font: FontData, glyph: Glyph, ox: int, oy: int, y: int, n: int) -> Seq<Point>
    decreases n,
{
    if n <= 0 {
        Seq::empty()
    } else {
        let prev = row_points(font, glyph, ox, oy, y, n - 1);
        if font.spec_glyph_pixel(glyph, n - 1, y) {
            prev.push(Point { x: (ox + n - 1) as i32, y: (oy + y) as i32 })
        } else {
            prev
        }
    }
}

/// The set pixels of the first `m` rows of a glyph drawn at `(ox, oy)`, row by row.
pub open spec fn glyph_points(font: FontData, glyph: Glyph, ox: int, oy: int, m: int) -> Seq<Point>
    decreases m,
{
    if m <= 0 {
        Seq::empty()
    } else {
        glyph_points(font, glyph, ox, oy, m - 1) + row_points(font, glyph, ox, oy, m - 1, glyph.width as int)
    }
}

/// Every set pixel of a glyph drawn at `(ox, oy)` lies within the `i32` range.
pub open spec fn glyph_points_fit(font: FontData, glyph: Glyph, ox: int, oy: int) -> bool {
    forall|x: int, y: int|
        #![trigger font.spec_glyph_pixel(glyph, x, y)]
        font.spec_glyph_pixel(glyph, x, y) ==> in_i32(ox + x) && in_i32(oy + y)
}

/// The display points of a glyph's set pixels when its bitmap starts at `origin`, row by
/// row, or `None` where one of them leaves the `i32` range.
pub fn glyph_pixels(font: &FontData, glyph: &Glyph, origin: Point) -> (res: Option<Vec<Point>>)
    ensures
        res is Some <==> glyph_points_fit(*font, *glyph, origin.x as int, origin.y as int),
        res matches Some(v) ==> v@ == glyph_points(*font, *glyph, origin.x as int, origin.y as int, glyph.height as int),
{
    let ghost ox = origin.x as int;
    let ghost oy = origin.y as int;
    let mut out: Vec<Point> = Vec::new();
    let mut y: u16 = 0;
    while y < glyph.height
        invariant
            ox == origin.x,
            oy == origin.y,
            y <= glyph.height,
            out@ == glyph_points(*font, *glyph, ox, oy, y as int),
            forall|px: int, py: int|
                #![trigger font.spec_glyph_pixel(*glyph, px, py)]
                0 <= py < y && font.spec_glyph_pixel(*glyph, px, py) ==> in_i32(ox + px) && in_i32(oy + py),
        decreases glyph.height - y,
    {
        let ghost before = out@;
        let mut x: u16 = 0;
        while x < glyph.width
            invariant
                ox == origin.x,
                oy == origin.y,
                y < glyph.height,
                x <= glyph.width,
                out@ == before + row_points(*font, *glyph, ox, oy, y as int, x as int),
                forall|px: int| #![trigger font.spec_glyph_pixel(*glyph, px, y as int)]
                    0 <= px < x && font.spec_glyph_pixel(*glyph, px, y as int) ==> in_i32(ox + px) && in_i32(oy + y),
            decreases glyph.width - x,
        {
            if font.glyph_pixel(glyph, x, y) {
                match (origin.x.checked_add(x as i32), origin.y.checked_add(y as i32)) {
                    (Some(px), Some(py)) => {
                        out.push(Point::new(px, py));
                    },
                    _ => {
                        return None;
                    },
                }
            }
            x = x + 1;
        }
        y = y + 1;
        proof {
            assert forall|px: int, py: int|
                #![trigger font.spec_glyph_pixel(*glyph, px, py)]
                0 <= py < y && font.spec_glyph_pixel(*glyph, px, py) implies in_i32(ox + px) && in_i32(oy + py) by {
                if py == y - 1 {
                    assert(0 <= px < glyph.width);
                }
            }
        }
    }
    Some(out)
}

/// The display points that drawing one cell sets: the set pixels of the cell's glyph,
/// placed in the cell; nothing for a character without a glyph.
pub open spec fn cell_points(font: FontData, cell: Cell, alignment: Alignment) -> Seq<Point> {
    match font.glyph_slot(cell.ch) {
        Some(i) => {
            let g = font.glyphs@[i];
            let c = glyph_corner(font, g, cell.origin, cell.size, alignment);
            glyph_points(font, g, c.0, c.1, g.height as int)
        },
        None => Seq::empty(),
    }
}

/// Drawing one cell keeps every coordinate within `i32`.
#[verifier::opaque]
pub open spec fn cell_fits(font: FontData, cell: Cell, alignment: Alignment) -> bool {
    match font.glyph_slot(cell.ch) {
        Some(i) => {
            let g = font.glyphs@[i];
            let c = glyph_corner(font, g, cell.origin, cell.size, alignment);
            glyph_origin_fits(font, g, cell.origin, cell.size, alignment) && glyph_points_fit(font, g, c.0, c.1)
        },
        None => true,
    }
}

/// The display points that drawing the cells sets, cell after cell.
pub open spec fn cells_points(font: FontData, cells: Seq<Cell>, alignment: Alignment) -> Seq<Point>
    decreases cells.len(),
{
    if cells.len() == 0 {
        Seq::empty()
    } else {
        cells_points(font, cells.drop_last(), alignment) + cell_points(font, cells.last(), alignment)
    }
}

pub open spec fn cells_fit(font: FontData, cells: Seq<Cell>, alignment: Alignment) -> bool {
    forall|k: int| 0 <= k < cells.len() ==> #[trigger] cell_fits(font, cells[k], alignment)
}

/// The display points that drawing one cell's glyph sets, or `None` where a coordinate
/// leaves the `i32` range.
pub fn draw_cell(font: &FontData, cell: Cell, alignment: Alignment) -> (res: Option<Vec<Point>>)
    ensures
        res is Some <==> cell_fits(*font, cell, alignment),
        res matches Some(v) ==> v@ == cell_points(*font, cell, alignment),
{
    reveal(cell_points);
    reveal(cell_fits);
    match font.glyph(cell.ch) {
        Some(glyph) => {
            let origin = match glyph_origin(font, glyph, cell.origin, cell.size, alignment) {
                Some(p) => p,
                None => return None,
            };
            glyph_pixels(font, glyph, origin)
        },
        None => Some(Vec::new()),
    }
}

/// The display points that drawing the glyphs of `cells` sets, in drawing order, or `None`
/// where a coordinate leaves the `i32` range.
pub fn draw_cells(font: &FontData, cells: &Vec<Cell>, alignment: Alignment) -> (res: Option<Vec<Point>>)
    ensures
        res is Some <==> cells_fit(*font, cells@, alignment),
        res matches Some(v) ==> v@ == cells_points(*font, cells@, alignment),
{
    let mut out: Vec<Point> = Vec::new();
    proof {
        assert(cells@.take(0) =~= Seq::<Cell>::empty());
    }
    for k in 0..cells.len()
        invariant
            out@ == cells_points(*font, cells@.take(k as int), alignment),
            forall|j: int| 0 <= j < k ==> #[trigger] cell_fits(*font, cells@[j], alignment),
    {
        let cell = cells[k];
        proof {
            assert(cells@.take(k + 1).drop_last() =~= cells@.take(k as int));
        }
        let mut points = match draw_cell(font, cell, alignment) {
            Some(v) => v,
            None => return None,
        };
        out.append(&mut points);
    }
    proof {
        assert(cells@.take(cells@.len() as int) =~= cells@);
    }
    Some(out)
}
} // verus!
