use vstd::prelude::*;

use crate::geometry::{Point, Size};
use crate::style::{Alignment, CellSizes};

verus! {

/// The lines of `s`: the pieces between `'\n'` characters, so that a string with `k`
/// newlines has `k + 1` lines (the empty string has one, empty, line).
pub open spec fn lines(s: Seq<char>) -> Seq<Seq<char>>
    decreases s.len(),
{
    if s.len() == 0 {
        seq![Seq::<char>::empty()]
    } else {
        let prev = lines(s.drop_last());
        if s.last() == '\n' {
            prev.push(Seq::<char>::empty())
        } else {
            prev.update(prev.len() - 1, prev.last().push(s.last()))
        }
    }
}

pub proof fn lemma_lines_len(s: Seq<char>)
    ensures
        lines(s).len() >= 1,
    decreases s.len(),
{
    if s.len() > 0 {
        lemma_lines_len(s.drop_last());
    }
}

/// How the lines of `s.push(c)` arise from those of `s`.
pub proof fn lemma_lines_push(s: Seq<char>, c: char)
    ensures
        lines(s).len() >= 1,
        c == '\n' ==> lines(s.push(c)) == lines(s).push(Seq::<char>::empty()),
        c != '\n' ==> lines(s.push(c)).drop_last() == lines(s).drop_last(),
        c != '\n' ==> lines(s.push(c)).last() == lines(s).last().push(c),
        c != '\n' ==> lines(s.push(c)).len() == lines(s).len(),
{
    lemma_lines_len(s);
    assert(s.push(c).drop_last() =~= s);
    if c != '\n' {
        assert(lines(s.push(c)).drop_last() =~= lines(s).drop_last());
    }
}

/// Clamps a non-negative length to `u32::MAX`, as saturating addition does.
pub open spec fn sat(v: int) -> int {
    if v > u32::MAX {
        u32::MAX as int
    } else {
        v
    }
}

pub open spec fn max(a: int, b: int) -> int {
    if a >= b {
        a
    } else {
        b
    }
}

/// The summed cell widths of the characters of `l`.
pub open spec fn width_sum(cells: CellSizes, l: Seq<char>) -> int
    decreases l.len(),
{
    if l.len() == 0 {
        0
    } else {
        width_sum(cells, l.drop_last()) + cells.spec_for_char(l.last()).width
    }
}

/// The summed cell heights of the characters of `l`.
pub open spec fn height_sum(cells: CellSizes, l: Seq<char>) -> int
    decreases l.len(),
{
    if l.len() == 0 {
        0
    } else {
        height_sum(cells, l.drop_last()) + cells.spec_for_char(l.last()).height
    }
}

/// The widest cell among the characters of `l` (0 when there are none).
pub open spec fn width_max(cells: CellSizes, l: Seq<char>) -> int
    decreases l.len(),
{
    if l.len() == 0 {
        0
    } else {
        max(width_max(cells, l.drop_last()), cells.spec_for_char(l.last()).width as int)
    }
}

/// The tallest cell among the characters of `l` (0 when there are none).
pub open spec fn height_max(cells: CellSizes, l: Seq<char>) -> int
    decreases l.len(),
{
    if l.len() == 0 {
        0
    } else {
        max(height_max(cells, l.drop_last()), cells.spec_for_char(l.last()).height as int)
    }
}

/// The widest line, each line as wide as its cells together (saturating).
pub open spec fn widest_line(cells: CellSizes, ls: Seq<Seq<char>>) -> int
    decreases ls.len(),
{
    if ls.len() == 0 {
        0
    } else {
        max(widest_line(cells, ls.drop_last()), sat(width_sum(cells, ls.last())))
    }
}

/// The lines' heights added up, each line as tall as its tallest cell.
pub open spec fn stacked_lines(cells: CellSizes, ls: Seq<Seq<char>>) -> int
    decreases ls.len(),
{
    if ls.len() == 0 {
        0
    } else {
        stacked_lines(cells, ls.drop_last()) + height_max(cells, ls.last())
    }
}

/// The columns' widths added up, each column as wide as its widest cell.
pub open spec fn side_by_side_columns(cells: CellSizes, ls: Seq<Seq<char>>) -> int
    decreases ls.len(),
{
    if ls.len() == 0 {
        0
    } else {
        side_by_side_columns(cells, ls.drop_last()) + width_max(cells, ls.last())
    }
}

/// The tallest column, each column as tall as its cells together (saturating).
pub open spec fn tallest_column(cells: CellSizes, ls: Seq<Seq<char>>) -> int
    decreases ls.len(),
{
    if ls.len() == 0 {
        0
    } else {
        max(tallest_column(cells, ls.drop_last()), sat(height_sum(cells, ls.last())))
    }
}

/// The size of horizontal text: as wide as its widest line, as tall as its lines together.
pub open spec fn horizontal_extent(cells: CellSizes, text: Seq<char>) -> (int, int) {
    (widest_line(cells, lines(text)), sat(stacked_lines(cells, lines(text))))
}

/// The size of vertical text, whose lines are columns laid left to right: as wide as its
/// columns together, as tall as its tallest column.
pub open spec fn vertical_extent(cells: CellSizes, text: Seq<char>) -> (int, int) {
    (sat(side_by_side_columns(cells, lines(text))), tallest_column(cells, lines(text)))
}

/// Whether a run flows in lines (left to right, lines top to bottom) or in columns
/// (top to bottom, columns left to right).
#[derive(Debug, Clone, Copy, PartialEq, Eq, Structural)]
pub enum TextFlow {
    Horizontal,
    Vertical,
}

/// Text laid out in cells from a start point.
#[derive(Debug, Clone, Copy)]
pub struct TextRun<'a> {
    pub text: &'a str,
    pub start: Point,
    pub cells: CellSizes,
    pub alignment: Alignment,
    pub flow: TextFlow,
}

impl<'a> TextRun<'a> {
    pub fn new(
        text: &'a str,
        start: Point,
        cells: CellSizes,
        alignment: Alignment,
        flow: TextFlow,
    ) -> (r: TextRun<'a>)
        ensures
            r.text == text,
            r.start == start,
            r.cells == cells,
            r.alignment == alignment,
            r.flow == flow,
    {
        TextRun { text, start, cells, alignment, flow }
    }

    pub open spec fn extent(&self) -> (int, int) {
        match self.flow {
            TextFlow::Horizontal => horizontal_extent(self.cells, self.text@),
            TextFlow::Vertical => vertical_extent(self.cells, self.text@),
        }
    }

    /// The size of the run's cells together.
    pub fn measure(&self) -> (r: Size)
        ensures
            r.width == self.extent().0,
            r.height == self.extent().1,
    {
        match self.flow {
            TextFlow::Horizontal => self.measure_horizontal(),
            TextFlow::Vertical => self.measure_vertical(),
        }
    }

    pub fn measure_horizontal(&self) -> (r: Size)
        ensures
            r.width == horizontal_extent(self.cells, self.text@).0,
            r.height == horizontal_extent(self.cells, self.text@).1,
    {
        let cells = self.cells;
        let mut max_width: u32 = 0;
        let mut total_height: u32 = 0;
        let mut line_width: u32 = 0;
        let mut line_height: u32 = 0;
        proof {
            assert(self.text@.take(0) =~= Seq::<char>::empty());
            assert(lines(self.text@.take(0)).drop_last() =~= Seq::<Seq<char>>::empty());
        }
        for ch in it: self.text.chars()
            invariant
                cells == self.cells,
                it.seq() == self.text@,
                0 <= it.index() <= self.text@.len(),
                lines(self.text@.take(it.index())).len() >= 1,
                max_width == widest_line(cells, lines(self.text@.take(it.index())).drop_last()),
                total_height == sat(
                    stacked_lines(cells, lines(self.text@.take(it.index())).drop_last()),
                ),
                line_width == sat(width_sum(cells, lines(self.text@.take(it.index())).last())),
                line_height == height_max(cells, lines(self.text@.take(it.index())).last()),
        {
            let ghost prefix = self.text@.take(it.index());
            proof {
                assert(self.text@.take(it.index() + 1) =~= prefix.push(ch));
                lemma_lines_push(prefix, ch);
                assert(lines(prefix) =~= lines(prefix).drop_last().push(lines(prefix).last()));
            }
            if ch == '\n' {
                assert(lines(prefix).push(Seq::<char>::empty()).drop_last() =~= lines(prefix));
                if line_width > max_width {
                    max_width = line_width;
                }
                total_height = total_height.saturating_add(line_height);
                line_width = 0;
                line_height = 0;
            } else {
                let cell = cells.for_char(ch);
                proof {
                    let last = lines(prefix).last();
                    assert(last.push(ch).drop_last() =~= last);
                }
                line_width = line_width.saturating_add(cell.width);
                if cell.height > line_height {
                    line_height = cell.height;
                }
            }
        }
        proof {
            let ls = lines(self.text@.take(self.text@.len() as int));
            assert(self.text@.take(self.text@.len() as int) =~= self.text@);
            assert(ls =~= ls.drop_last().push(ls.last()));
        }
        let width = if line_width > max_width {
            line_width
        } else {
            max_width
        };
        Size::new(width, total_height.saturating_add(line_height))
    }

    pub fn measure_vertical(&self) -> (r: Size)
        ensures
            r.width == vertical_extent(self.cells, self.text@).0,
            r.height == vertical_extent(self.cells, self.text@).1,
    {
        let cells = self.cells;
        let mut total_width: u32 = 0;
        let mut max_height: u32 = 0;
        let mut column_width: u32 = 0;
        let mut column_height: u32 = 0;
        proof {
            assert(self.text@.take(0) =~= Seq::<char>::empty());
            assert(lines(self.text@.take(0)).drop_last() =~= Seq::<Seq<char>>::empty());
        }
        for ch in it: self.text.chars()
            invariant
                cells == self.cells,
                it.seq() == self.text@,
                0 <= it.index() <= self.text@.len(),
                lines(self.text@.take(it.index())).len() >= 1,
                total_width == sat(
                    side_by_side_columns(cells, lines(self.text@.take(it.index())).drop_last()),
                ),
                max_height == tallest_column(cells, lines(self.text@.take(it.index())).drop_last()),
                column_width == width_max(cells, lines(self.text@.take(it.index())).last()),
                column_height == sat(height_sum(cells, lines(self.text@.take(it.index())).last())),
        {
            let ghost prefix = self.text@.take(it.index());
            proof {
                assert(self.text@.take(it.index() + 1) =~= prefix.push(ch));
                lemma_lines_push(prefix, ch);
                assert(lines(prefix) =~= lines(prefix).drop_last().push(lines(prefix).last()));
            }
            if ch == '\n' {
                assert(lines(prefix).push(Seq::<char>::empty()).drop_last() =~= lines(prefix));
                total_width = total_width.saturating_add(column_width);
                if column_height > max_height {
                    max_height = column_height;
                }
                column_width = 0;
                column_height = 0;
            } else {
                let cell = cells.for_char(ch);
                proof {
                    let last = lines(prefix).last();
                    assert(last.push(ch).drop_last() =~= last);
                }
                if cell.width > column_width {
                    column_width = cell.width;
                }
                column_height = column_height.saturating_add(cell.height);
            }
        }
        proof {
            let ls = lines(self.text@.take(self.text@.len() as int));
            assert(self.text@.take(self.text@.len() as int) =~= self.text@);
            assert(ls =~= ls.drop_last().push(ls.last()));
        }
        let height = if column_height > max_height {
            column_height
        } else {
            max_height
        };
        Size::new(total_width.saturating_add(column_width), height)
    }
}


/// A cell of laid-out text: its character, top-left corner and size.
#[derive(Debug, Clone, Copy, PartialEq, Eq, Structural)]
pub struct Cell {
    pub ch: char,
    pub origin: Point,
    pub size: Size,
}

/// A length taken as `i32`, as the pen arithmetic takes it.
pub open spec fn signed(v: u32) -> int {
    (v as i32) as int
}

pub open spec fn in_i32(v: int) -> bool {
    i32::MIN <= v <= i32::MAX
}

/// The cell widths of `l` added up, each taken as `i32`.
pub open spec fn signed_width_sum(cells: CellSizes, l: Seq<char>) -> int
    decreases l.len(),
{
    if l.len() == 0 {
        0
    } else {
        signed_width_sum(cells, l.drop_last()) + signed(cells.spec_for_char(l.last()).width)
    }
}

/// The cell heights of `l` added up, each taken as `i32`.
pub open spec fn signed_height_sum(cells: CellSizes, l: Seq<char>) -> int
    decreases l.len(),
{
    if l.len() == 0 {
        0
    } else {
        signed_height_sum(cells, l.drop_last()) + signed(cells.spec_for_char(l.last()).height)
    }
}

/// How far a line moves the pen down: its tallest cell, and at least the ASCII cell height.
pub open spec fn line_advance(cells: CellSizes, l: Seq<char>) -> u32
    decreases l.len(),
{
    if l.len() == 0 {
        cells.ascii.height
    } else {
        let m = line_advance(cells, l.drop_last());
        let h = cells.spec_for_char(l.last()).height;
        if h > m {
            h
        } else {
            m
        }
    }
}

/// How far a column moves the pen right: its widest cell, and at least the ASCII cell width.
pub open spec fn column_advance(cells: CellSizes, l: Seq<char>) -> u32
    decreases l.len(),
{
    if l.len() == 0 {
        cells.ascii.width
    } else {
        let m = column_advance(cells, l.drop_last());
        let w = cells.spec_for_char(l.last()).width;
        if w > m {
            w
        } else {
            m
        }
    }
}

/// The advances of the lines `ls` added up, each taken as `i32`.
pub open spec fn lines_advance(cells: CellSizes, ls: Seq<Seq<char>>) -> int
    decreases ls.len(),
{
    if ls.len() == 0 {
        0
    } else {
        lines_advance(cells, ls.drop_last()) + signed(line_advance(cells, ls.last()))
    }
}

/// The advances of the columns `ls` added up, each taken as `i32`.
pub open spec fn columns_advance(cells: CellSizes, ls: Seq<Seq<char>>) -> int
    decreases ls.len(),
{
    if ls.len() == 0 {
        0
    } else {
        columns_advance(cells, ls.drop_last()) + signed(column_advance(cells, ls.last()))
    }
}

impl<'a> TextRun<'a> {
    /// The pen after the characters `p`: horizontally, right of the start by the cells
    /// of the current line and below it by the earlier lines; vertically, below the start
    /// by the cells of the current column and right of it by the earlier columns.
    pub open spec fn pen(&self, p: Seq<char>) -> (int, int) {
        match self.flow {
            TextFlow::Horizontal => (
                self.start.x + signed_width_sum(self.cells, lines(p).last()),
                self.start.y + lines_advance(self.cells, lines(p).drop_last()),
            ),
            TextFlow::Vertical => (
                self.start.x + columns_advance(self.cells, lines(p).drop_last()),
                self.start.y + signed_height_sum(self.cells, lines(p).last()),
            ),
        }
    }

    pub open spec fn pen_fits_after(&self, p: Seq<char>) -> bool {
        in_i32(self.pen(p).0) && in_i32(self.pen(p).1)
    }

    /// Every pen position that laying out the run passes through fits in `i32`.
    pub open spec fn pen_fits(&self) -> bool {
        forall|q: int| 0 <= q <= self.text@.len() ==> #[trigger] self.pen_fits_after(self.text@.take(q))
    }

    /// The cells of the characters `t` other than newlines, in order, each at the pen
    /// position that the characters before it leave.
    pub open spec fn cells_of(&self, t: Seq<char>) -> Seq<Cell>
        decreases t.len(),
    {
        if t.len() == 0 {
            Seq::empty()
        } else if t.last() == '\n' {
            self.cells_of(t.drop_last())
        } else {
            let pen = self.pen(t.drop_last());
            self.cells_of(t.drop_last()).push(
                Cell {
                    ch: t.last(),
                    origin: Point { x: pen.0 as i32, y: pen.1 as i32 },
                    size: self.cells.spec_for_char(t.last()),
                },
            )
        }
    }

    /// The cells of the run, or `None` where a pen position leaves the `i32` range.
    pub fn cells(&self) -> (res: Option<Vec<Cell>>)
        ensures
            res is Some <==> self.pen_fits(),
            res matches Some(v) ==> v@ == self.cells_of(self.text@),
    {
        match self.flow {
            TextFlow::Horizontal => self.horizontal_cells(),
            TextFlow::Vertical => self.vertical_cells(),
        }
    }

    fn horizontal_cells(&self) -> (res: Option<Vec<Cell>>)
        requires
            self.flow == TextFlow::Horizontal,
        ensures
            res is Some <==> self.pen_fits(),
            res matches Some(v) ==> v@ == self.cells_of(self.text@),
    {
        let cells = self.cells;
        let start = self.start;
        let mut out: Vec<Cell> = Vec::new();
        let mut pen_x: i32 = start.x;
        let mut pen_y: i32 = start.y;
        let mut line_height: u32 = cells.ascii.height;
        proof {
            assert(self.text@.take(0) =~= Seq::<char>::empty());
            assert(lines(self.text@.take(0)).drop_last() =~= Seq::<Seq<char>>::empty());
            assert(self.pen_fits_after(self.text@.take(0)));
        }
        for ch in it: self.text.chars()
            invariant
                cells == self.cells,
                start == self.start,
                self.flow == TextFlow::Horizontal,
                it.seq() == self.text@,
                0 <= it.index() <= self.text@.len(),
                lines(self.text@.take(it.index())).len() >= 1,
                out@ == self.cells_of(self.text@.take(it.index())),
                pen_x == self.pen(self.text@.take(it.index())).0,
                pen_y == self.pen(self.text@.take(it.index())).1,
                line_height == line_advance(cells, lines(self.text@.take(it.index())).last()),
                forall|q: int| 0 <= q <= it.index() ==> #[trigger] self.pen_fits_after(self.text@.take(q)),
        {
            let ghost prefix = self.text@.take(it.index());
            let ghost next = self.text@.take(it.index() + 1);
            proof {
                assert(next =~= prefix.push(ch));
                assert(next.drop_last() =~= prefix);
                lemma_lines_push(prefix, ch);
                assert(lines(prefix) =~= lines(prefix).drop_last().push(lines(prefix).last()));
            }
            if ch == '\n' {
                assert(lines(prefix).push(Seq::<char>::empty()).drop_last() =~= lines(prefix));
                pen_x = start.x;
                match pen_y.checked_add(line_height as i32) {
                    Some(v) => pen_y = v,
                    None => {
                        assert(!self.pen_fits_after(next));
                        return None;
                    },
                }
                line_height = cells.ascii.height;
            } else {
                let cell = cells.for_char(ch);
                proof {
                    let last = lines(prefix).last();
                    assert(last.push(ch).drop_last() =~= last);
                }
                if cell.height > line_height {
                    line_height = cell.height;
                }
                out.push(Cell { ch, origin: Point::new(pen_x, pen_y), size: cell });
                match pen_x.checked_add(cell.width as i32) {
                    Some(v) => pen_x = v,
                    None => {
                        assert(!self.pen_fits_after(next));
                        return None;
                    },
                }
            }
            assert(self.pen_fits_after(next));
        }
        proof {
            assert(self.text@.take(self.text@.len() as int) =~= self.text@);
        }
        Some(out)
    }

    fn vertical_cells(&self) -> (res: Option<Vec<Cell>>)
        requires
            self.flow == TextFlow::Vertical,
        ensures
            res is Some <==> self.pen_fits(),
            res matches Some(v) ==> v@ == self.cells_of(self.text@),
    {
        let cells = self.cells;
        let start = self.start;
        let mut out: Vec<Cell> = Vec::new();
        let mut pen_x: i32 = start.x;
        let mut pen_y: i32 = start.y;
        let mut column_width: u32 = cells.ascii.width;
        proof {
            assert(self.text@.take(0) =~= Seq::<char>::empty());
            assert(lines(self.text@.take(0)).drop_last() =~= Seq::<Seq<char>>::empty());
            assert(self.pen_fits_after(self.text@.take(0)));
        }
        for ch in it: self.text.chars()
            invariant
                cells == self.cells,
                start == self.start,
                self.flow == TextFlow::Vertical,
                it.seq() == self.text@,
                0 <= it.index() <= self.text@.len(),
                lines(self.text@.take(it.index())).len() >= 1,
                out@ == self.cells_of(self.text@.take(it.index())),
                pen_x == self.pen(self.text@.take(it.index())).0,
                pen_y == self.pen(self.text@.take(it.index())).1,
                column_width == column_advance(cells, lines(self.text@.take(it.index())).last()),
                forall|q: int| 0 <= q <= it.index() ==> #[trigger] self.pen_fits_after(self.text@.take(q)),
        {
            let ghost prefix = self.text@.take(it.index());
            let ghost next = self.text@.take(it.index() + 1);
            proof {
                assert(next =~= prefix.push(ch));
                assert(next.drop_last() =~= prefix);
                lemma_lines_push(prefix, ch);
                assert(lines(prefix) =~= lines(prefix).drop_last().push(lines(prefix).last()));
            }
            if ch == '\n' {
                assert(lines(prefix).push(Seq::<char>::empty()).drop_last() =~= lines(prefix));
                pen_y = start.y;
                match pen_x.checked_add(column_width as i32) {
                    Some(v) => pen_x = v,
                    None => {
                        assert(!self.pen_fits_after(next));
                        return None;
                    },
                }
                column_width = cells.ascii.width;
            } else {
                let cell = cells.for_char(ch);
                proof {
                    let last = lines(prefix).last();
                    assert(last.push(ch).drop_last() =~= last);
                }
                if cell.width > column_width {
                    column_width = cell.width;
                }
                out.push(Cell { ch, origin: Point::new(pen_x, pen_y), size: cell });
                match pen_y.checked_add(cell.height as i32) {
                    Some(v) => pen_y = v,
                    None => {
                        assert(!self.pen_fits_after(next));
                        return None;
                    },
                }
            }
            assert(self.pen_fits_after(next));
        }
        proof {
            assert(self.text@.take(self.text@.len() as int) =~= self.text@);
        }
        Some(out)
    }
}

} // verus!

verus! {

/// The first cell of a run, where its text starts with a character other than a newline.
pub open spec fn first_cell(run: TextRun, c: char) -> Cell {
    Cell { ch: c, origin: run.start, size: run.cells.spec_for_char(c) }
}

proof fn lemma_first_cell_base(run: TextRun, c: char)
    requires
        c != '\n',
    ensures
        run.cells_of(Seq::<char>::empty().push(c)).len() == 1,
        run.cells_of(Seq::<char>::empty().push(c))[0] == first_cell(run, c),
{
    let e = Seq::<char>::empty();
    let p = e.push(c);
    assert(p.drop_last() =~= e);
    assert(lines(e).drop_last() =~= Seq::<Seq<char>>::empty());
    assert(lines(e).last() =~= Seq::<char>::empty());
    assert(run.cells_of(e).len() == 0);
}

proof fn lemma_first_cell_step(run: TextRun, q: Seq<char>, c: char, first: Cell)
    requires
        run.cells_of(q).len() > 0,
        run.cells_of(q)[0] == first,
    ensures
        run.cells_of(q.push(c)).len() > 0,
        run.cells_of(q.push(c))[0] == first,
{
    assert(q.push(c).drop_last() =~= q);
}

proof fn lemma_first_cell(run: TextRun, p: Seq<char>)
    requires
        p.len() > 0,
        p[0] != '\n',
    ensures
        run.cells_of(p).len() > 0,
        run.cells_of(p)[0] == first_cell(run, p[0]),
    decreases p.len(),
{
    let q = p.drop_last();
    let c = p.last();
    if p.len() == 1 {
        lemma_first_cell_base(run, p[0]);
        assert(Seq::<char>::empty().push(p[0]) =~= p);
    } else {
        lemma_first_cell(run, q);
        lemma_first_cell_step(run, q, c, first_cell(run, p[0]));
        assert(q.push(c) =~= p);
    }
}

/// A run's first cell sits at the run's start point, in either flow: where the text
/// starts with a character other than a newline, the first laid-out cell is that
/// character's, with its origin at `start` and its size from the cell sizes.
pub proof fn law_first_cell_at_start(run: TextRun)
    requires
        run.text@.len() > 0,
        run.text@[0] != '\n',
    ensures
        run.cells_of(run.text@).len() > 0,
        run.cells_of(run.text@)[0].ch == run.text@[0],
        run.cells_of(run.text@)[0].origin == run.start,
        run.cells_of(run.text@)[0].size == run.cells.spec_for_char(run.text@[0]),
{
    lemma_first_cell(run, run.text@);
}

/// A column moves the pen right by its widest cell, and by at least the width of an ASCII
/// cell (an empty column by exactly that): no cell of the column is wider than the
/// advance, and the advance is the width of one of its cells or of an ASCII cell.
pub proof fn law_column_advance_is_widest(cells: CellSizes, l: Seq<char>)
    ensures
        column_advance(cells, l) >= cells.ascii.width,
        forall|i: int| 0 <= i < l.len() ==> column_advance(cells, l) >= #[trigger] cells.spec_for_char(l[i]).width,
        column_advance(cells, l) == cells.ascii.width || exists|i: int|
            0 <= i < l.len() && column_advance(cells, l) == #[trigger] cells.spec_for_char(l[i]).width,
    decreases l.len(),
{
    if l.len() > 0 {
        let d = l.drop_last();
        law_column_advance_is_widest(cells, d);
        assert forall|i: int| 0 <= i < l.len() implies column_advance(cells, l) >= #[trigger] cells.spec_for_char(
            l[i],
        ).width by {
            if i < d.len() {
                assert(l[i] == d[i]);
            }
        }
        if column_advance(cells, l) != cells.ascii.width {
            if column_advance(cells, l) == cells.spec_for_char(l.last()).width {
                assert(cells.spec_for_char(l[l.len() - 1]).width == column_advance(cells, l));
            } else {
                let i = choose|i: int| 0 <= i < d.len() && column_advance(cells, d) == #[trigger] cells.spec_for_char(d[i]).width;
                assert(d[i] == l[i]);
            }
        }
    }
}

/// A line moves the pen down by its tallest cell, and by at least the height of an ASCII
/// cell (an empty line by exactly that): no cell of the line is taller than the advance,
/// and the advance is the height of one of its cells or of an ASCII cell.
pub proof fn law_line_advance_is_tallest(cells: CellSizes, l: Seq<char>)
    ensures
        line_advance(cells, l) >= cells.ascii.height,
        forall|i: int| 0 <= i < l.len() ==> line_advance(cells, l) >= #[trigger] cells.spec_for_char(l[i]).height,
        line_advance(cells, l) == cells.ascii.height || exists|i: int|
            0 <= i < l.len() && line_advance(cells, l) == #[trigger] cells.spec_for_char(l[i]).height,
    decreases l.len(),
{
    if l.len() > 0 {
        let d = l.drop_last();
        law_line_advance_is_tallest(cells, d);
        assert forall|i: int| 0 <= i < l.len() implies line_advance(cells, l) >= #[trigger] cells.spec_for_char(
            l[i],
        ).height by {
            if i < d.len() {
                assert(l[i] == d[i]);
            }
        }
        if line_advance(cells, l) != cells.ascii.height {
            if line_advance(cells, l) == cells.spec_for_char(l.last()).height {
                assert(cells.spec_for_char(l[l.len() - 1]).height == line_advance(cells, l));
            } else {
                let i = choose|i: int| 0 <= i < d.len() && line_advance(cells, d) == #[trigger] cells.spec_for_char(d[i]).height;
                assert(d[i] == l[i]);
            }
        }
    }
}

/// In vertical flow a newline starts the next column at the top, right of the current
/// column by at least the width of an ASCII cell and of every cell in that column, so
/// that no cell of a later column overlaps one of an earlier column.
pub proof fn law_next_column_clears_cells(run: TextRun, p: Seq<char>)
    requires
        run.flow == TextFlow::Vertical,
        run.cells.ascii.width <= i32::MAX,
        run.cells.cjk.width <= i32::MAX,
    ensures
        run.pen(p.push('\n')).1 == run.start.y,
        run.pen(p.push('\n')).0 >= run.pen(p).0 + run.cells.ascii.width,
        forall|i: int| 0 <= i < lines(p).last().len() ==> run.pen(p.push('\n')).0 >= run.pen(p).0
            + (#[trigger] run.cells.spec_for_char(lines(p).last()[i])).width,
{
    lemma_lines_push(p, '\n');
    let ls = lines(p);
    let col = ls.last();
    assert(ls.push(Seq::<char>::empty()).drop_last() =~= ls);
    law_column_advance_is_widest(run.cells, col);
    let a = column_advance(run.cells, col);
    assert(a <= i32::MAX) by {
        if a != run.cells.ascii.width {
            let i = choose|i: int| 0 <= i < col.len() && a == #[trigger] run.cells.spec_for_char(col[i]).width;
        }
    }
    assert(signed(a) == a);
    assert(signed_height_sum(run.cells, Seq::<char>::empty()) == 0);
}

/// In horizontal flow a newline starts the next line at the left, below the current line
/// by at least the height of an ASCII cell (an empty line too) and of every cell in that
/// line, so that no cell of a later line overlaps one of an earlier line.
pub proof fn law_next_line_clears_cells(run: TextRun, p: Seq<char>)
    requires
        run.flow == TextFlow::Horizontal,
        run.cells.ascii.height <= i32::MAX,
        run.cells.cjk.height <= i32::MAX,
    ensures
        run.pen(p.push('\n')).0 == run.start.x,
        run.pen(p.push('\n')).1 >= run.pen(p).1 + run.cells.ascii.height,
        forall|i: int| 0 <= i < lines(p).last().len() ==> run.pen(p.push('\n')).1 >= run.pen(p).1
            + (#[trigger] run.cells.spec_for_char(lines(p).last()[i])).height,
{
    lemma_lines_push(p, '\n');
    let ls = lines(p);
    let row = ls.last();
    assert(ls.push(Seq::<char>::empty()).drop_last() =~= ls);
    law_line_advance_is_tallest(run.cells, row);
    let a = line_advance(run.cells, row);
    assert(a <= i32::MAX) by {
        if a != run.cells.ascii.height {
            let i = choose|i: int| 0 <= i < row.len() && a == #[trigger] run.cells.spec_for_char(row[i]).height;
        }
    }
    assert(signed(a) == a);
    assert(signed_width_sum(run.cells, Seq::<char>::empty()) == 0);
}

/// The cells of `b` are those of `a`, each moved by `(dx, dy)`.
pub open spec fn moved_cells(a: Seq<Cell>, b: Seq<Cell>, dx: int, dy: int) -> bool {
    &&& b.len() == a.len()
    &&& forall|k: int|
        0 <= k < a.len() ==> (#[trigger] b[k]).ch == a[k].ch && b[k].size == a[k].size && b[k].origin.x
            == a[k].origin.x + dx && b[k].origin.y == a[k].origin.y + dy
}

proof fn lemma_cells_push(run: TextRun, d: Seq<char>, c: char)
    ensures
        c == '\n' ==> run.cells_of(d.push(c)) == run.cells_of(d),
        c != '\n' ==> run.cells_of(d.push(c)) == run.cells_of(d).push(
            Cell {
                ch: c,
                origin: Point { x: run.pen(d).0 as i32, y: run.pen(d).1 as i32 },
                size: run.cells.spec_for_char(c),
            },
        ),
{
    assert(d.push(c).drop_last() =~= d);
}

proof fn lemma_cells_moved(a: TextRun, b: TextRun, d: Seq<char>, c: char)
    requires
        b.text == a.text,
        b.cells == a.cells,
        b.flow == a.flow,
        forall|j: int| 0 <= j <= d.len() ==> #[trigger] a.pen_fits_after(d.take(j)),
        forall|j: int| 0 <= j <= d.len() ==> #[trigger] b.pen_fits_after(d.take(j)),
    ensures
        moved_cells(a.cells_of(d.push(c)), b.cells_of(d.push(c)), b.start.x - a.start.x, b.start.y - a.start.y),
    decreases d.len(),
{
    let dx = b.start.x - a.start.x;
    let dy = b.start.y - a.start.y;
    if d.len() > 0 {
        let e = d.drop_last();
        assert forall|j: int| 0 <= j <= e.len() implies #[trigger] a.pen_fits_after(e.take(j)) by {
            assert(e.take(j) =~= d.take(j));
        }
        assert forall|j: int| 0 <= j <= e.len() implies #[trigger] b.pen_fits_after(e.take(j)) by {
            assert(e.take(j) =~= d.take(j));
        }
        lemma_cells_moved(a, b, e, d.last());
        assert(e.push(d.last()) =~= d);
    } else {
        assert(d =~= Seq::<char>::empty());
        assert(a.cells_of(d).len() == 0);
        assert(b.cells_of(d).len() == 0);
    }
    assert(moved_cells(a.cells_of(d), b.cells_of(d), dx, dy));
    let n = d.len() as int;
    assert(a.pen_fits_after(d.take(n)) && b.pen_fits_after(d.take(n)));
    assert(d.take(n) =~= d);
    lemma_cells_push(a, d, c);
    lemma_cells_push(b, d, c);
    let ca = a.cells_of(d.push(c));
    let cb = b.cells_of(d.push(c));
    if c != '\n' {
        assert forall|k: int| 0 <= k < ca.len() implies (#[trigger] cb[k]).ch == ca[k].ch && cb[k].size == ca[k].size
            && cb[k].origin.x == ca[k].origin.x + dx && cb[k].origin.y == ca[k].origin.y + dy by {
            if k < ca.len() - 1 {
                assert(ca[k] == a.cells_of(d)[k]);
                assert(cb[k] == b.cells_of(d)[k]);
            }
        }
    }
}

/// Laying a run out from another start point moves every cell by the difference of the
/// two start points and changes nothing else (wherever the pen stays within `i32` in both):
/// drawing a text at a point is drawing it at the origin moved by that point.
pub proof fn law_layout_moves_with_start(a: TextRun, b: TextRun)
    requires
        b.text == a.text,
        b.cells == a.cells,
        b.flow == a.flow,
        a.pen_fits(),
        b.pen_fits(),
    ensures
        moved_cells(a.cells_of(a.text@), b.cells_of(b.text@), b.start.x - a.start.x, b.start.y - a.start.y),
{
    assert forall|j: int| 0 <= j <= a.text@.len() implies #[trigger] b.pen_fits_after(a.text@.take(j)) by {
        assert(b.pen_fits_after(b.text@.take(j)));
    }
    let t = a.text@;
    if t.len() > 0 {
        let d = t.drop_last();
        assert forall|j: int| 0 <= j <= d.len() implies #[trigger] a.pen_fits_after(d.take(j)) by {
            assert(d.take(j) =~= t.take(j));
        }
        assert forall|j: int| 0 <= j <= d.len() implies #[trigger] b.pen_fits_after(d.take(j)) by {
            assert(d.take(j) =~= t.take(j));
        }
        lemma_cells_moved(a, b, d, t.last());
        assert(d.push(t.last()) =~= t);
    } else {
        assert(t =~= Seq::<char>::empty());
        assert(a.cells_of(t).len() == 0);
        assert(b.cells_of(t).len() == 0);
    }
}

} // verus!
