use vstd::prelude::*;

use crate::geometry::Size;

verus! {

#[derive(Debug, Clone, Copy, PartialEq, Eq, Structural)]
pub enum HorizontalAlignment {
    Left,
    Center,
    Right,
}

#[derive(Debug, Clone, Copy, PartialEq, Eq, Structural)]
pub enum VerticalAlignment {
    Top,
    Middle,
    Bottom,
}

/// Half of `d`, rounded toward zero.
pub open spec fn half_toward_zero(d: int) -> int {
    if d >= 0 {
        d / 2
    } else {
        -((-d) / 2)
    }
}

/// The difference `outer - inner` of two lengths taken as `i32`, when it fits in `i32`.
pub open spec fn gap_fits(outer: u32, inner: u32) -> bool {
    i32::MIN <= (outer as i32) - (inner as i32) <= i32::MAX
}

/// Where an inner length starts inside an outer one under an alignment: at the start,
/// centred (rounding toward zero), or flush with the end.
pub open spec fn aligned_offset(outer: u32, inner: u32, start: bool, end: bool) -> int {
    if start {
        0
    } else if end {
        (outer as i32) - (inner as i32)
    } else {
        half_toward_zero((outer as i32) - (inner as i32))
    }
}

/// Whether an alignment's offset can be taken: at the start it is zero, elsewhere it needs
/// the difference of the lengths within `i32`.
pub open spec fn offset_fits(outer: u32, inner: u32, start: bool) -> bool {
    start || gap_fits(outer, inner)
}

fn gap_offset(outer: u32, inner: u32, start: bool, end: bool) -> (r: i32)
    requires
        offset_fits(outer, inner, start),
    ensures
        r == aligned_offset(outer, inner, start, end),
{
    if start {
        0
    } else if end {
        outer as i32 - inner as i32
    } else {
        (outer as i32 - inner as i32) / 2
    }
}

impl HorizontalAlignment {
    pub open spec fn spec_offset(self, outer_width: u32, inner_width: u32) -> int {
        aligned_offset(outer_width, inner_width, self == HorizontalAlignment::Left, self
            == HorizontalAlignment::Right)
    }

    pub open spec fn spec_fits(self, outer_width: u32, inner_width: u32) -> bool {
        offset_fits(outer_width, inner_width, self == HorizontalAlignment::Left)
    }

    /// Whether the offset of content `inner_width` wide inside `outer_width` can be taken.
    pub fn fits(self, outer_width: u32, inner_width: u32) -> (r: bool)
        ensures
            r == self.spec_fits(outer_width, inner_width),
    {
        match self {
            HorizontalAlignment::Left => true,
            _ => (outer_width as i32).checked_sub(inner_width as i32).is_some(),
        }
    }

    /// Where content `inner_width` wide starts inside `outer_width`.
    pub fn offset(self, outer_width: u32, inner_width: u32) -> (r: i32)
        requires
            self.spec_fits(outer_width, inner_width),
        ensures
            r == self.spec_offset(outer_width, inner_width),
    {
        match self {
            HorizontalAlignment::Left => gap_offset(outer_width, inner_width, true, false),
            HorizontalAlignment::Center => gap_offset(outer_width, inner_width, false, false),
            HorizontalAlignment::Right => gap_offset(outer_width, inner_width, false, true),
        }
    }
}

impl VerticalAlignment {
    pub open spec fn spec_offset(self, outer_height: u32, inner_height: u32) -> int {
        aligned_offset(outer_height, inner_height, self == VerticalAlignment::Top, self
            == VerticalAlignment::Bottom)
    }

    pub open spec fn spec_fits(self, outer_height: u32, inner_height: u32) -> bool {
        offset_fits(outer_height, inner_height, self == VerticalAlignment::Top)
    }

    /// Whether the offset of content `inner_height` tall inside `outer_height` can be taken.
    pub fn fits(self, outer_height: u32, inner_height: u32) -> (r: bool)
        ensures
            r == self.spec_fits(outer_height, inner_height),
    {
        match self {
            VerticalAlignment::Top => true,
            _ => (outer_height as i32).checked_sub(inner_height as i32).is_some(),
        }
    }

    /// Where content `inner_height` tall starts inside `outer_height`.
    pub fn offset(self, outer_height: u32, inner_height: u32) -> (r: i32)
        requires
            self.spec_fits(outer_height, inner_height),
        ensures
            r == self.spec_offset(outer_height, inner_height),
    {
        match self {
            VerticalAlignment::Top => gap_offset(outer_height, inner_height, true, false),
            VerticalAlignment::Middle => gap_offset(outer_height, inner_height, false, false),
            VerticalAlignment::Bottom => gap_offset(outer_height, inner_height, false, true),
        }
    }
}

pub fn horizontal_offset(cell_width: u32, design_width: u32, alignment: HorizontalAlignment) -> (r: i32)
    requires
        alignment.spec_fits(cell_width, design_width),
    ensures
        r == alignment.spec_offset(cell_width, design_width),
{
    alignment.offset(cell_width, design_width)
}

pub fn vertical_offset(cell_height: u32, design_height: u32, alignment: VerticalAlignment) -> (r: i32)
    requires
        alignment.spec_fits(cell_height, design_height),
    ensures
        r == alignment.spec_offset(cell_height, design_height),
{
    alignment.offset(cell_height, design_height)
}

/// A 3x3 placement of content inside a box.
#[derive(Debug, Clone, Copy, PartialEq, Eq, Structural)]
pub struct Alignment {
    pub horizontal: HorizontalAlignment,
    pub vertical: VerticalAlignment,
}

impl Alignment {
    pub fn top_left() -> (a: Alignment)
        ensures
            a == (Alignment { horizontal: HorizontalAlignment::Left, vertical: VerticalAlignment::Top }),
    {
        Alignment { horizontal: HorizontalAlignment::Left, vertical: VerticalAlignment::Top }
    }

    pub fn top_center() -> (a: Alignment)
        ensures
            a == (Alignment { horizontal: HorizontalAlignment::Center, vertical: VerticalAlignment::Top }),
    {
        Alignment { horizontal: HorizontalAlignment::Center, vertical: VerticalAlignment::Top }
    }

    pub fn top_right() -> (a: Alignment)
        ensures
            a == (Alignment { horizontal: HorizontalAlignment::Right, vertical: VerticalAlignment::Top }),
    {
        Alignment { horizontal: HorizontalAlignment::Right, vertical: VerticalAlignment::Top }
    }

    pub fn middle_left() -> (a: Alignment)
        ensures
            a == (Alignment { horizontal: HorizontalAlignment::Left, vertical: VerticalAlignment::Middle }),
    {
        Alignment { horizontal: HorizontalAlignment::Left, vertical: VerticalAlignment::Middle }
    }

    pub open spec fn spec_center() -> Alignment {
        Alignment { horizontal: HorizontalAlignment::Center, vertical: VerticalAlignment::Middle }
    }

    pub fn center() -> (a: Alignment)
        ensures
            a == Self::spec_center(),
    {
        Alignment { horizontal: HorizontalAlignment::Center, vertical: VerticalAlignment::Middle }
    }

    pub fn middle_right() -> (a: Alignment)
        ensures
            a == (Alignment { horizontal: HorizontalAlignment::Right, vertical: VerticalAlignment::Middle }),
    {
        Alignment { horizontal: HorizontalAlignment::Right, vertical: VerticalAlignment::Middle }
    }

    pub fn bottom_left() -> (a: Alignment)
        ensures
            a == (Alignment { horizontal: HorizontalAlignment::Left, vertical: VerticalAlignment::Bottom }),
    {
        Alignment { horizontal: HorizontalAlignment::Left, vertical: VerticalAlignment::Bottom }
    }

    pub fn bottom_center() -> (a: Alignment)
        ensures
            a == (Alignment { horizontal: HorizontalAlignment::Center, vertical: VerticalAlignment::Bottom }),
    {
        Alignment { horizontal: HorizontalAlignment::Center, vertical: VerticalAlignment::Bottom }
    }

    pub fn bottom_right() -> (a: Alignment)
        ensures
            a == (Alignment { horizontal: HorizontalAlignment::Right, vertical: VerticalAlignment::Bottom }),
    {
        Alignment { horizontal: HorizontalAlignment::Right, vertical: VerticalAlignment::Bottom }
    }

    pub fn new(horizontal: HorizontalAlignment, vertical: VerticalAlignment) -> (a: Alignment)
        ensures
            a == (Alignment { horizontal, vertical }),
    {
        Alignment { horizontal, vertical }
    }

    pub open spec fn spec_offset(self, outer: Size, inner: Size) -> (int, int) {
        (
            self.horizontal.spec_offset(outer.width, inner.width),
            self.vertical.spec_offset(outer.height, inner.height),
        )
    }

    pub open spec fn spec_fits(self, outer: Size, inner: Size) -> bool {
        self.horizontal.spec_fits(outer.width, inner.width) && self.vertical.spec_fits(outer.height, inner.height)
    }

    /// Whether the offset of `inner` inside `outer` can be taken.
    pub fn fits(self, outer: Size, inner: Size) -> (r: bool)
        ensures
            r == self.spec_fits(outer, inner),
    {
        self.horizontal.fits(outer.width, inner.width) && self.vertical.fits(outer.height, inner.height)
    }

    /// Where `inner` starts inside `outer`, as an `(x, y)` offset.
    pub fn offset(self, outer: Size, inner: Size) -> (r: (i32, i32))
        requires
            self.spec_fits(outer, inner),
        ensures
            r.0 == self.spec_offset(outer, inner).0,
            r.1 == self.spec_offset(outer, inner).1,
    {
        (
            horizontal_offset(outer.width, inner.width, self.horizontal),
            vertical_offset(outer.height, inner.height, self.vertical),
        )
    }
}

} // verus!

verus! {

/// Whether `c` is an ASCII character; every other character takes a CJK cell.
pub open spec fn is_ascii_char(c: char) -> bool {
    (c as u32) < 128
}

/// The cell sizes of ASCII and of all other (CJK) characters.
#[derive(Debug, Clone, Copy, PartialEq, Eq, Structural)]
pub struct CellSizes {
    pub ascii: Size,
    pub cjk: Size,
}

impl CellSizes {
    /// The heights of the two cells agree, unless one of them is still unset (zero).
    pub open spec fn heights_agree(self) -> bool {
        self.ascii.height == self.cjk.height || self.ascii.height == 0 || self.cjk.height == 0
    }

    pub open spec fn spec_for_char(self, ch: char) -> Size {
        if is_ascii_char(ch) {
            self.ascii
        } else {
            self.cjk
        }
    }

    pub fn new(ascii: Size, cjk: Size) -> (c: CellSizes)
        requires
            ascii.height == cjk.height,
        ensures
            c == (CellSizes { ascii, cjk }),
            c.heights_agree(),
    {
        CellSizes { ascii, cjk }
    }

    pub fn with_ascii(self, ascii: Size) -> (c: CellSizes)
        requires
            self.cjk.height == 0 || ascii.height == self.cjk.height,
        ensures
            c == (CellSizes { ascii, cjk: self.cjk }),
            c.heights_agree(),
    {
        CellSizes { ascii, cjk: self.cjk }
    }

    pub fn with_cjk(self, cjk: Size) -> (c: CellSizes)
        requires
            self.ascii.height == 0 || self.ascii.height == cjk.height,
        ensures
            c == (CellSizes { ascii: self.ascii, cjk }),
            c.heights_agree(),
    {
        CellSizes { ascii: self.ascii, cjk }
    }

    /// The cell of `ch`: the ASCII cell for ASCII characters, the CJK cell otherwise.
    pub fn for_char(self, ch: char) -> (s: Size)
        ensures
            s == self.spec_for_char(ch),
    {
        if (ch as u32) < 128 {
            self.ascii
        } else {
            self.cjk
        }
    }
}

/// Colour, cell sizes and the placement of the font's design square inside each cell.
#[derive(Debug, Clone, Copy, PartialEq, Eq)]
pub struct TextStyle<C> {
    pub color: C,
    pub cells: CellSizes,
    pub alignment: Alignment,
}

impl<C> TextStyle<C> {
    /// A style with unset (zero) cells and centred alignment.
    pub fn new(color: C) -> (s: TextStyle<C>)
        ensures
            s.color == color,
            s.cells == (CellSizes { ascii: Size { width: 0, height: 0 }, cjk: Size { width: 0, height: 0 } }),
            s.alignment == Alignment::spec_center(),
    {
        TextStyle {
            color,
            cells: CellSizes::new(Size::new(0, 0), Size::new(0, 0)),
            alignment: Alignment::center(),
        }
    }

    pub fn cells(self, ascii: Size, cjk: Size) -> (s: TextStyle<C>)
        requires
            ascii.height == cjk.height,
        ensures
            s == (TextStyle { cells: CellSizes { ascii, cjk }, ..self }),
    {
        TextStyle { color: self.color, cells: CellSizes::new(ascii, cjk), alignment: self.alignment }
    }

    pub fn ascii_cell(self, size: Size) -> (s: TextStyle<C>)
        requires
            self.cells.cjk.height == 0 || size.height == self.cells.cjk.height,
        ensures
            s == (TextStyle { cells: CellSizes { ascii: size, cjk: self.cells.cjk }, ..self }),
    {
        TextStyle { color: self.color, cells: self.cells.with_ascii(size), alignment: self.alignment }
    }

    pub fn cjk_cell(self, size: Size) -> (s: TextStyle<C>)
        requires
            self.cells.ascii.height == 0 || self.cells.ascii.height == size.height,
        ensures
            s == (TextStyle { cells: CellSizes { ascii: self.cells.ascii, cjk: size }, ..self }),
    {
        TextStyle { color: self.color, cells: self.cells.with_cjk(size), alignment: self.alignment }
    }

    pub fn align(self, alignment: Alignment) -> (s: TextStyle<C>)
        ensures
            s == (TextStyle { alignment, ..self }),
    {
        TextStyle { color: self.color, cells: self.cells, alignment }
    }
}

} // verus!
