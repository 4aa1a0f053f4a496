use vstd::prelude::*;

use crate::geometry::{Point, Size};
use crate::layout::{
    column_advance, columns_advance, height_sum, horizontal_extent, in_i32, lemma_lines_push,
    line_advance, lines, lines_advance, sat, signed, signed_height_sum, signed_width_sum,
    vertical_extent, width_sum, Cell, TextFlow, TextRun,
};
use crate::style::{CellSizes, HorizontalAlignment, VerticalAlignment};

verus! {

/// Splits `text` into its lines (see `lines`).
pub fn split_lines(text: &str) -> (ls: Vec<Vec<char>>)
    ensures
        ls@.map_values(|l: Vec<char>| l@) == lines(text@),
{
    let mut ls: Vec<Vec<char>> = Vec::new();
    let mut current: Vec<char> = Vec::new();
    proof {
        assert(text@.take(0) =~= Seq::<char>::empty());
        assert(ls@.map_values(|l: Vec<char>| l@).push(current@) =~= lines(text@.take(0)));
    }
    for ch in it: text.chars()
        invariant
            it.seq() == text@,
            0 <= it.index() <= text@.len(),
            ls@.map_values(|l: Vec<char>| l@).push(current@) == lines(text@.take(it.index())),
    {
        let ghost prefix = text@.take(it.index());
        let ghost before = ls@.map_values(|l: Vec<char>| l@);
        proof {
            assert(text@.take(it.index() + 1) =~= prefix.push(ch));
            lemma_lines_push(prefix, ch);
            assert(before.push(current@).drop_last() =~= before);
        }
        if ch == '\n' {
            let mut done: Vec<char> = Vec::new();
            std::mem::swap(&mut done, &mut current);
            ls.push(done);
            proof {
                assert(ls@.map_values(|l: Vec<char>| l@) =~= before.push(lines(prefix).last()));
                assert(ls@.map_values(|l: Vec<char>| l@).push(current@) =~= lines(prefix).push(Seq::<char>::empty()));
            }
        } else {
            current.push(ch);
            proof {
                assert(ls@.map_values(|l: Vec<char>| l@).push(current@) =~= lines(prefix.push(ch)));
            }
        }
    }
    proof {
        assert(text@.take(text@.len() as int) =~= text@);
    }
    ls.push(current);
    proof {
        assert(ls@.map_values(|l: Vec<char>| l@) =~= lines(text@));
    }
    ls
}

/// The cell of the `i`-th character of line `l` laid left to right from `(x0, y)`.
pub open spec fn row_cell(cells: CellSizes, l: Seq<char>, x0: int, y: int, i: int) -> Cell {
    Cell {
        ch: l[i],
        origin: Point { x: (x0 + signed_width_sum(cells, l.take(i))) as i32, y: y as i32 },
        size: cells.spec_for_char(l[i]),
    }
}

/// The cells of line `l` laid left to right from `(x0, y)`.
pub open spec fn row_cells(cells: CellSizes, l: Seq<char>, x0: int, y: int) -> Seq<Cell> {
    Seq::new(l.len(), |i: int| row_cell(cells, l, x0, y, i))
}

/// The cell of the `i`-th character of column `l` laid top to bottom from `y0`, placed
/// horizontally in the column `width` wide at `x` by the run's horizontal alignment.
pub open spec fn column_cell(cells: CellSizes, horizontal: HorizontalAlignment, l: Seq<char>, x: int, width: u32, y0: int, i: int) -> Cell {
    Cell {
        ch: l[i],
        origin: Point {
            x: (x + horizontal.spec_offset(width, cells.spec_for_char(l[i]).width)) as i32,
            y: (y0 + signed_height_sum(cells, l.take(i))) as i32,
        },
        size: cells.spec_for_char(l[i]),
    }
}

/// The cells of column `l` laid top to bottom from `y0`, each placed horizontally in the
/// column `width` wide at `x` by the run's horizontal alignment.
pub open spec fn column_cells(cells: CellSizes, horizontal: HorizontalAlignment, l: Seq<char>, x: int, width: u32, y0: int) -> Seq<Cell> {
    Seq::new(l.len(), |i: int| column_cell(cells, horizontal, l, x, width, y0, i))
}

proof fn lemma_take_push(head: Seq<Cell>, all: Seq<Cell>, j: int, c: Cell)
    requires
        0 <= j < all.len(),
        c == all[j],
    ensures
        (head + all.take(j)).push(c) == head + all.take(j + 1),
{
    assert((head + all.take(j)).push(c) =~= head + all.take(j + 1));
}

impl<'a> TextRun<'a> {
    /// Where line `l` starts: right of the start point by the run's horizontal alignment of
    /// the line's width within the width of the whole text.
    pub open spec fn line_start_x(&self, l: Seq<char>) -> int {
        self.start.x + self.alignment.horizontal.spec_offset(
            horizontal_extent(self.cells, self.text@).0 as u32,
            sat(width_sum(self.cells, l)) as u32,
        )
    }

    /// Where column `l` starts: below the start point by the run's vertical alignment of the
    /// column's height within the height of the whole text.
    pub open spec fn column_start_y(&self, l: Seq<char>) -> int {
        self.start.y + self.alignment.vertical.spec_offset(
            vertical_extent(self.cells, self.text@).1 as u32,
            sat(height_sum(self.cells, l)) as u32,
        )
    }

    /// The cells of the lines `ls`, line after line, each line aligned within the text's
    /// width and the lines stacked from the start point down.
    pub open spec fn aligned_rows(&self, ls: Seq<Seq<char>>) -> Seq<Cell>
        decreases ls.len(),
    {
        if ls.len() == 0 {
            Seq::empty()
        } else {
            self.aligned_rows(ls.drop_last()) + row_cells(
                self.cells,
                ls.last(),
                self.line_start_x(ls.last()),
                self.start.y + lines_advance(self.cells, ls.drop_last()),
            )
        }
    }

    /// The cells of the columns `ls`, column after column from the start point right, each
    /// column aligned within the text's height.
    pub open spec fn aligned_columns(&self, ls: Seq<Seq<char>>) -> Seq<Cell>
        decreases ls.len(),
    {
        if ls.len() == 0 {
            Seq::empty()
        } else {
            self.aligned_columns(ls.drop_last()) + column_cells(
                self.cells,
                self.alignment.horizontal,
                ls.last(),
                self.start.x + columns_advance(self.cells, ls.drop_last()),
                column_advance(self.cells, ls.last()),
                self.column_start_y(ls.last()),
            )
        }
    }

    /// Laying out the lines `ls` with alignment keeps every coordinate within `i32`.
    pub open spec fn rows_fit(&self, ls: Seq<Seq<char>>) -> bool
        decreases ls.len(),
    {
        if ls.len() == 0 {
            true
        } else {
            let l = ls.last();
            &&& self.rows_fit(ls.drop_last())
            &&& self.alignment.horizontal.spec_fits(horizontal_extent(self.cells, self.text@).0 as u32, sat(width_sum(self.cells, l)) as u32)
            &&& forall|j: int| 0 <= j <= l.len() ==> in_i32(self.line_start_x(l) + #[trigger] signed_width_sum(self.cells, l.take(j)))
            &&& in_i32(self.start.y + lines_advance(self.cells, ls))
        }
    }

    /// Laying out the columns `ls` with alignment keeps every coordinate within `i32`.
    pub open spec fn columns_fit(&self, ls: Seq<Seq<char>>) -> bool
        decreases ls.len(),
    {
        if ls.len() == 0 {
            true
        } else {
            let l = ls.last();
            let x = self.start.x + columns_advance(self.cells, ls.drop_last());
            let width = column_advance(self.cells, l);
            &&& self.columns_fit(ls.drop_last())
            &&& self.alignment.vertical.spec_fits(vertical_extent(self.cells, self.text@).1 as u32, sat(height_sum(self.cells, l)) as u32)
            &&& forall|j: int| 0 <= j <= l.len() ==> in_i32(self.column_start_y(l) + #[trigger] signed_height_sum(self.cells, l.take(j)))
            &&& forall|j: int| 0 <= j < l.len() ==> self.alignment.horizontal.spec_fits(width, (#[trigger] self.cells.spec_for_char(l[j])).width)
                && in_i32(x + self.alignment.horizontal.spec_offset(width, self.cells.spec_for_char(l[j]).width))
            &&& in_i32(self.start.x + columns_advance(self.cells, ls))
        }
    }

    /// The width of a line and how far it moves the pen down.
    pub fn measure_horizontal_line(&self, line: &Vec<char>) -> (r: (u32, u32))
        ensures
            r.0 == sat(width_sum(self.cells, line@)),
            r.1 == line_advance(self.cells, line@),
    {
        let mut line_width: u32 = 0;
        let mut line_height: u32 = self.cells.ascii.height;
        proof {
            assert(line@.take(0) =~= Seq::<char>::empty());
        }
        for k in 0..line.len()
            invariant
                line_width == sat(width_sum(self.cells, line@.take(k as int))),
                line_height == line_advance(self.cells, line@.take(k as int)),
        {
            let cell = self.cells.for_char(line[k]);
            proof {
                assert(line@.take(k + 1).drop_last() =~= line@.take(k as int));
            }
            line_width = line_width.saturating_add(cell.width);
            if cell.height > line_height {
                line_height = cell.height;
            }
        }
        proof {
            assert(line@.take(line@.len() as int) =~= line@);
        }
        (line_width, line_height)
    }

    /// How far a column moves the pen right, and its height.
    pub fn measure_vertical_column(&self, column: &Vec<char>) -> (r: (u32, u32))
        ensures
            r.0 == column_advance(self.cells, column@),
            r.1 == sat(height_sum(self.cells, column@)),
    {
        let mut column_width: u32 = self.cells.ascii.width;
        let mut column_height: u32 = 0;
        proof {
            assert(column@.take(0) =~= Seq::<char>::empty());
        }
        for k in 0..column.len()
            invariant
                column_width == column_advance(self.cells, column@.take(k as int)),
                column_height == sat(height_sum(self.cells, column@.take(k as int))),
        {
            let cell = self.cells.for_char(column[k]);
            proof {
                assert(column@.take(k + 1).drop_last() =~= column@.take(k as int));
            }
            if cell.width > column_width {
                column_width = cell.width;
            }
            column_height = column_height.saturating_add(cell.height);
        }
        proof {
            assert(column@.take(column@.len() as int) =~= column@);
        }
        (column_width, column_height)
    }
}

proof fn lemma_rows_fit_prefix(run: TextRun, ls: Seq<Seq<char>>, k: int)
    requires
        run.rows_fit(ls),
        0 <= k <= ls.len(),
    ensures
        run.rows_fit(ls.take(k)),
    decreases ls.len() - k,
{
    if k < ls.len() {
        lemma_rows_fit_prefix(run, ls.drop_last(), k);
        assert(ls.drop_last().take(k) =~= ls.take(k));
    } else {
        assert(ls.take(k) =~= ls);
    }
}

proof fn lemma_columns_fit_prefix(run: TextRun, ls: Seq<Seq<char>>, k: int)
    requires
        run.columns_fit(ls),
        0 <= k <= ls.len(),
    ensures
        run.columns_fit(ls.take(k)),
    decreases ls.len() - k,
{
    if k < ls.len() {
        lemma_columns_fit_prefix(run, ls.drop_last(), k);
        assert(ls.drop_last().take(k) =~= ls.take(k));
    } else {
        assert(ls.take(k) =~= ls);
    }
}

impl<'a> TextRun<'a> {
    /// The cells of the run with every line (or column) aligned within the whole text.
    pub open spec fn aligned_cells_of(&self) -> Seq<Cell> {
        match self.flow {
            TextFlow::Horizontal => self.aligned_rows(lines(self.text@)),
            TextFlow::Vertical => self.aligned_columns(lines(self.text@)),
        }
    }

    pub open spec fn aligned_fits(&self) -> bool {
        match self.flow {
            TextFlow::Horizontal => self.rows_fit(lines(self.text@)),
            TextFlow::Vertical => self.columns_fit(lines(self.text@)),
        }
    }

    /// The cells of the run with every line aligned horizontally within the text's width
    /// (horizontal flow), or every column aligned vertically within the text's height and
    /// every cell horizontally within its column (vertical flow); `None` where a coordinate
    /// leaves the `i32` range.
    pub fn aligned_cells(&self) -> (res: Option<Vec<Cell>>)
        ensures
            res is Some <==> self.aligned_fits(),
            res matches Some(v) ==> v@ == self.aligned_cells_of(),
    {
        match self.flow {
            TextFlow::Horizontal => self.aligned_row_cells(),
            TextFlow::Vertical => self.aligned_column_cells(),
        }
    }

    /// Appends the cells of line `line` laid left to right from `(x0, y)`; false where a pen
    /// position leaves the `i32` range.
    fn push_row(&self, out: &mut Vec<Cell>, line: &Vec<char>, x0: i32, y: i32) -> (ok: bool)
        ensures
            ok == forall|j: int| 0 <= j <= line@.len() ==> in_i32(x0 + #[trigger] signed_width_sum(self.cells, line@.take(j))),
            ok ==> final(out)@ == old(out)@ + row_cells(self.cells, line@, x0 as int, y as int),
    {
        let ghost l = line@;
        let ghost head = out@;
        let mut pen_x: i32 = x0;
        proof {
            assert(l.take(0) =~= Seq::<char>::empty());
            assert(row_cells(self.cells, l, x0 as int, y as int).take(0) =~= Seq::<Cell>::empty());
            assert(head + Seq::<Cell>::empty() =~= head);
        }
        for j in 0..line.len()
            invariant
                l == line@,
                head == old(out)@,
                out@ == head + row_cells(self.cells, l, x0 as int, y as int).take(j as int),
                pen_x == x0 + signed_width_sum(self.cells, l.take(j as int)),
                forall|jj: int| 0 <= jj <= j ==> in_i32(x0 + #[trigger] signed_width_sum(self.cells, l.take(jj))),
        {
            let ch = line[j];
            let cell = self.cells.for_char(ch);
            let c = Cell { ch, origin: Point::new(pen_x, y), size: cell };
            proof {
                lemma_take_push(head, row_cells(self.cells, l, x0 as int, y as int), j as int, c);
            }
            out.push(c);
            proof {
                assert(l.take(j + 1).drop_last() =~= l.take(j as int));
                assert(signed_width_sum(self.cells, l.take(j + 1)) == signed_width_sum(self.cells, l.take(j as int)) + signed(cell.width));
            }
            pen_x = match pen_x.checked_add(cell.width as i32) {
                Some(v) => v,
                None => return false,
            };
        }
        proof {
            assert(l.take(l.len() as int) =~= l);
            assert(row_cells(self.cells, l, x0 as int, y as int).take(l.len() as int) =~= row_cells(self.cells, l, x0 as int, y as int));
        }
        true
    }

    fn aligned_row_cells(&self) -> (res: Option<Vec<Cell>>)
        ensures
            res is Some <==> self.rows_fit(lines(self.text@)),
            res matches Some(v) ==> v@ == self.aligned_rows(lines(self.text@)),
    {
        let measure = self.measure_horizontal();
        let ls = split_lines(self.text);
        let ghost lsv = lines(self.text@);
        let mut out: Vec<Cell> = Vec::new();
        let mut pen_y: i32 = self.start.y;
        proof {
            assert(lsv.take(0) =~= Seq::<Seq<char>>::empty());
        }
        for i in 0..ls.len()
            invariant
                lsv == lines(self.text@),
                ls@.map_values(|l: Vec<char>| l@) == lsv,
                measure.width == horizontal_extent(self.cells, self.text@).0,
                out@ == self.aligned_rows(lsv.take(i as int)),
                self.rows_fit(lsv.take(i as int)),
                pen_y == self.start.y + lines_advance(self.cells, lsv.take(i as int)),
        {
            let line = &ls[i];
            let ghost l = line@;
            proof {
                assert(l == lsv[i as int]);
                assert(lsv.take(i + 1).drop_last() =~= lsv.take(i as int));
                assert(lsv.take(i + 1).last() == l);
                assert(l.take(0) =~= Seq::<char>::empty());
                if self.rows_fit(lsv) {
                    lemma_rows_fit_prefix(*self, lsv, i + 1);
                }
            }
            let (line_width, line_height) = self.measure_horizontal_line(line);
            if !self.alignment.horizontal.fits(measure.width, line_width) {
                return None;
            }
            let offset = self.alignment.horizontal.offset(measure.width, line_width);
            let x0 = match self.start.x.checked_add(offset) {
                Some(v) => v,
                None => {
                    assert(signed_width_sum(self.cells, l.take(0)) == 0);
                    return None;
                },
            };
            if !self.push_row(&mut out, line, x0, pen_y) {
                return None;
            }
            pen_y = match pen_y.checked_add(line_height as i32) {
                Some(v) => v,
                None => return None,
            };
        }
        proof {
            assert(lsv.take(lsv.len() as int) =~= lsv);
        }
        Some(out)
    }

    /// Appends the cells of column `column` laid top to bottom from `y0`, each aligned
    /// horizontally in the column `width` wide at `x`; false where a coordinate leaves the
    /// `i32` range.
    fn push_column(&self, out: &mut Vec<Cell>, column: &Vec<char>, x: i32, width: u32, y0: i32) -> (ok: bool)
        ensures
            ok == ((forall|j: int| 0 <= j <= column@.len() ==> in_i32(y0 + #[trigger] signed_height_sum(self.cells, column@.take(j))))
                && (forall|j: int| 0 <= j < column@.len() ==> self.alignment.horizontal.spec_fits(width, (#[trigger] self.cells.spec_for_char(column@[j])).width)
                    && in_i32(x + self.alignment.horizontal.spec_offset(width, self.cells.spec_for_char(column@[j]).width)))),
            ok ==> final(out)@ == old(out)@ + column_cells(self.cells, self.alignment.horizontal, column@, x as int, width, y0 as int),
    {
        let ghost l = column@;
        let ghost head = out@;
        let mut pen_y: i32 = y0;
        proof {
            assert(l.take(0) =~= Seq::<char>::empty());
            assert(column_cells(self.cells, self.alignment.horizontal, l, x as int, width, y0 as int).take(0) =~= Seq::<Cell>::empty());
            assert(head + Seq::<Cell>::empty() =~= head);
        }
        for j in 0..column.len()
            invariant
                l == column@,
                head == old(out)@,
                out@ == head + column_cells(self.cells, self.alignment.horizontal, l, x as int, width, y0 as int).take(j as int),
                pen_y == y0 + signed_height_sum(self.cells, l.take(j as int)),
                forall|jj: int| 0 <= jj <= j ==> in_i32(y0 + #[trigger] signed_height_sum(self.cells, l.take(jj))),
                forall|jj: int| 0 <= jj < j ==> self.alignment.horizontal.spec_fits(width, (#[trigger] self.cells.spec_for_char(l[jj])).width)
                    && in_i32(x + self.alignment.horizontal.spec_offset(width, self.cells.spec_for_char(l[jj]).width)),
        {
            let ch = column[j];
            let cell = self.cells.for_char(ch);
            if !self.alignment.horizontal.fits(width, cell.width) {
                return false;
            }
            let cell_x = match x.checked_add(self.alignment.horizontal.offset(width, cell.width)) {
                Some(v) => v,
                None => return false,
            };
            let c = Cell { ch, origin: Point::new(cell_x, pen_y), size: cell };
            proof {
                lemma_take_push(head, column_cells(self.cells, self.alignment.horizontal, l, x as int, width, y0 as int), j as int, c);
            }
            out.push(c);
            proof {
                assert(l.take(j + 1).drop_last() =~= l.take(j as int));
                assert(signed_height_sum(self.cells, l.take(j + 1)) == signed_height_sum(self.cells, l.take(j as int)) + signed(cell.height));
            }
            pen_y = match pen_y.checked_add(cell.height as i32) {
                Some(v) => v,
                None => return false,
            };
        }
        proof {
            assert(l.take(l.len() as int) =~= l);
            assert(column_cells(self.cells, self.alignment.horizontal, l, x as int, width, y0 as int).take(l.len() as int) =~= column_cells(self.cells, self.alignment.horizontal, l, x as int, width, y0 as int));
        }
        true
    }

    fn aligned_column_cells(&self) -> (res: Option<Vec<Cell>>)
        ensures
            res is Some <==> self.columns_fit(lines(self.text@)),
            res matches Some(v) ==> v@ == self.aligned_columns(lines(self.text@)),
    {
        let measure = self.measure_vertical();
        let ls = split_lines(self.text);
        let ghost lsv = lines(self.text@);
        let mut out: Vec<Cell> = Vec::new();
        let mut pen_x: i32 = self.start.x;
        proof {
            assert(lsv.take(0) =~= Seq::<Seq<char>>::empty());
        }
        for i in 0..ls.len()
            invariant
                lsv == lines(self.text@),
                ls@.map_values(|l: Vec<char>| l@) == lsv,
                measure.height == vertical_extent(self.cells, self.text@).1,
                out@ == self.aligned_columns(lsv.take(i as int)),
                self.columns_fit(lsv.take(i as int)),
                pen_x == self.start.x + columns_advance(self.cells, lsv.take(i as int)),
        {
            let column = &ls[i];
            let ghost l = column@;
            proof {
                assert(l == lsv[i as int]);
                assert(lsv.take(i + 1).drop_last() =~= lsv.take(i as int));
                assert(lsv.take(i + 1).last() == l);
                assert(l.take(0) =~= Seq::<char>::empty());
                if self.columns_fit(lsv) {
                    lemma_columns_fit_prefix(*self, lsv, i + 1);
                }
            }
            let (column_width, column_height) = self.measure_vertical_column(column);
            if !self.alignment.vertical.fits(measure.height, column_height) {
                return None;
            }
            let offset = self.alignment.vertical.offset(measure.height, column_height);
            let y0 = match self.start.y.checked_add(offset) {
                Some(v) => v,
                None => {
                    assert(signed_height_sum(self.cells, l.take(0)) == 0);
                    return None;
                },
            };
            if !self.push_column(&mut out, column, pen_x, column_width, y0) {
                return None;
            }
            pen_x = match pen_x.checked_add(column_width as i32) {
                Some(v) => v,
                None => return None,
            };
        }
        proof {
            assert(lsv.take(lsv.len() as int) =~= lsv);
        }
        Some(out)
    }
}

proof fn lemma_row_cells_push(cells: CellSizes, l: Seq<char>, c: char, x0: int, y: int)
    ensures
        row_cells(cells, l.push(c), x0, y) == row_cells(cells, l, x0, y).push(Cell {
            ch: c,
            origin: Point { x: (x0 + signed_width_sum(cells, l)) as i32, y: y as i32 },
            size: cells.spec_for_char(c),
        }),
{
    let lc = l.push(c);
    assert forall|i: int| 0 <= i < l.len() implies row_cell(cells, lc, x0, y, i) == row_cell(cells, l, x0, y, i) by {
        assert(lc.take(i) =~= l.take(i));
    }
    assert(lc.take(l.len() as int) =~= l);
    assert(row_cells(cells, lc, x0, y) =~= row_cells(cells, l, x0, y).push(row_cell(cells, lc, x0, y, l.len() as int)));
}

proof fn lemma_left_column_cells_push(cells: CellSizes, l: Seq<char>, c: char, x: int, width: u32, width2: u32, y0: int)
    ensures
        column_cells(cells, HorizontalAlignment::Left, l.push(c), x, width2, y0)
            == column_cells(cells, HorizontalAlignment::Left, l, x, width, y0).push(Cell {
                ch: c,
                origin: Point { x: x as i32, y: (y0 + signed_height_sum(cells, l)) as i32 },
                size: cells.spec_for_char(c),
            }),
{
    let lc = l.push(c);
    let h = HorizontalAlignment::Left;
    assert forall|i: int| 0 <= i < l.len() implies column_cell(cells, h, lc, x, width2, y0, i)
        == column_cell(cells, h, l, x, width, y0, i) by {
        assert(lc.take(i) =~= l.take(i));
    }
    assert(lc.take(l.len() as int) =~= l);
    assert(column_cells(cells, h, lc, x, width2, y0) =~= column_cells(cells, h, l, x, width, y0).push(
        column_cell(cells, h, lc, x, width2, y0, l.len() as int),
    ));
}

/// The layouts agree on the characters `q` and then `c`, where they agree on `q`.
proof fn lemma_top_left_step(run: TextRun, q: Seq<char>, c: char)
    requires
        run.alignment.horizontal == HorizontalAlignment::Left,
        run.alignment.vertical == VerticalAlignment::Top,
        run.flow == TextFlow::Horizontal ==> run.aligned_rows(lines(q)) == run.cells_of(q),
        run.flow == TextFlow::Vertical ==> run.aligned_columns(lines(q)) == run.cells_of(q),
    ensures
        run.flow == TextFlow::Horizontal ==> run.aligned_rows(lines(q.push(c))) == run.cells_of(q.push(c)),
        run.flow == TextFlow::Vertical ==> run.aligned_columns(lines(q.push(c))) == run.cells_of(q.push(c)),
{
    let p = q.push(c);
    assert(p.drop_last() =~= q);
    lemma_lines_push(q, c);
    let lq = lines(q);
    let lp = lines(p);
    if c == '\n' {
        assert(run.cells_of(p) == run.cells_of(q));
        assert(lp.drop_last() =~= lq);
        assert(row_cells(run.cells, lp.last(), run.line_start_x(lp.last()), run.start.y + lines_advance(run.cells, lq)) =~= Seq::<Cell>::empty());
        assert(run.aligned_rows(lp) =~= run.aligned_rows(lq));
        assert(column_cells(run.cells, run.alignment.horizontal, lp.last(), run.start.x + columns_advance(run.cells, lq),
            column_advance(run.cells, lp.last()), run.column_start_y(lp.last())) =~= Seq::<Cell>::empty());
        assert(run.aligned_columns(lp) =~= run.aligned_columns(lq));
    } else {
        let d = lq.drop_last();
        let last = lq.last();
        let cell = Cell {
            ch: c,
            origin: Point { x: run.pen(q).0 as i32, y: run.pen(q).1 as i32 },
            size: run.cells.spec_for_char(c),
        };
        assert(run.cells_of(p) == run.cells_of(q).push(cell));
        if run.flow == TextFlow::Horizontal {
            let y = run.start.y + lines_advance(run.cells, d);
            lemma_row_cells_push(run.cells, last, c, run.start.x as int, y);
            assert(run.aligned_rows(lp) =~= run.aligned_rows(lq).push(cell));
        } else {
            let x = run.start.x + columns_advance(run.cells, d);
            lemma_left_column_cells_push(run.cells, last, c, x, column_advance(run.cells, last),
                column_advance(run.cells, last.push(c)), run.start.y as int);
            assert(run.aligned_columns(lp) =~= run.aligned_columns(lq).push(cell));
        }
    }
}

proof fn lemma_top_left_prefix(run: TextRun, p: Seq<char>)
    requires
        run.alignment.horizontal == HorizontalAlignment::Left,
        run.alignment.vertical == VerticalAlignment::Top,
    ensures
        run.flow == TextFlow::Horizontal ==> run.aligned_rows(lines(p)) == run.cells_of(p),
        run.flow == TextFlow::Vertical ==> run.aligned_columns(lines(p)) == run.cells_of(p),
    decreases p.len(),
{
    if p.len() == 0 {
        let ls = lines(p);
        assert(ls.drop_last() =~= Seq::<Seq<char>>::empty());
        assert(run.aligned_rows(ls.drop_last()) == Seq::<Cell>::empty());
        assert(run.aligned_columns(ls.drop_last()) == Seq::<Cell>::empty());
        assert(row_cells(run.cells, ls.last(), run.line_start_x(ls.last()), run.start.y + lines_advance(run.cells, ls.drop_last())) =~= Seq::<Cell>::empty());
        assert(column_cells(run.cells, run.alignment.horizontal, ls.last(), run.start.x + columns_advance(run.cells, ls.drop_last()),
            column_advance(run.cells, ls.last()), run.column_start_y(ls.last())) =~= Seq::<Cell>::empty());
    } else {
        let q = p.drop_last();
        lemma_top_left_prefix(run, q);
        lemma_top_left_step(run, q, p.last());
        assert(q.push(p.last()) =~= p);
    }
}

/// With the top-left alignment the aligned layout places every cell where the plain layout
/// does: each line (or column) starts at the start point's edge.
pub proof fn law_top_left_alignment_is_plain(run: TextRun)
    requires
        run.alignment.horizontal == HorizontalAlignment::Left,
        run.alignment.vertical == VerticalAlignment::Top,
    ensures
        run.aligned_cells_of() == run.cells_of(run.text@),
{
    lemma_top_left_prefix(run, run.text@);
}

} // verus!
