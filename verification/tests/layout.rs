use glyph_cell::aligned_layout::split_lines;
use glyph_cell::geometry::{Point, Size};
use glyph_cell::layout::{Cell, TextFlow, TextRun};
use glyph_cell::style::{Alignment, CellSizes, HorizontalAlignment, VerticalAlignment};

fn cells() -> CellSizes {
    CellSizes::new(Size::new(3, 5), Size::new(5, 5))
}

fn cell(ch: char, x: i32, y: i32, width: u32) -> Cell {
    Cell { ch, origin: Point::new(x, y), size: Size::new(width, 5) }
}

#[test]
fn splits_text_at_newlines() {
    assert_eq!(split_lines("A你\nBB"), vec![vec!['A', '你'], vec!['B', 'B']]);
    assert_eq!(split_lines(""), vec![Vec::<char>::new()]);
    assert_eq!(split_lines("\n"), vec![Vec::<char>::new(), Vec::new()]);
}

#[test]
fn centers_each_line_within_the_widest() {
    let run = TextRun::new("A你\nBB", Point::new(0, 0), cells(), Alignment::center(), TextFlow::Horizontal);
    assert_eq!(run.measure(), Size::new(8, 10));
    assert_eq!(
        run.aligned_cells().unwrap(),
        vec![cell('A', 0, 0, 3), cell('你', 3, 0, 5), cell('B', 1, 5, 3), cell('B', 4, 5, 3)]
    );
}

#[test]
fn right_aligns_each_line() {
    let run = TextRun::new("A你\nBB", Point::new(10, 20), cells(), Alignment::top_right(), TextFlow::Horizontal);
    assert_eq!(
        run.aligned_cells().unwrap(),
        vec![cell('A', 10, 20, 3), cell('你', 13, 20, 5), cell('B', 12, 25, 3), cell('B', 15, 25, 3)]
    );
}

#[test]
fn aligns_columns_and_cells_within_columns() {
    let run = TextRun::new("A你\nB", Point::new(0, 0), cells(), Alignment::center(), TextFlow::Vertical);
    assert_eq!(run.measure(), Size::new(8, 10));
    assert_eq!(
        run.aligned_cells().unwrap(),
        vec![cell('A', 1, 0, 3), cell('你', 0, 5, 5), cell('B', 5, 2, 3)]
    );
}

#[test]
fn top_left_alignment_matches_the_plain_layout() {
    for flow in [TextFlow::Horizontal, TextFlow::Vertical] {
        let run = TextRun::new("AB你\n你\n\nA", Point::new(-4, 7), cells(), Alignment::top_left(), flow);
        assert_eq!(run.aligned_cells(), run.cells());
    }
}

#[test]
fn refuses_coordinates_past_i32() {
    let run = TextRun::new("AB", Point::new(i32::MAX - 4, 0), cells(), Alignment::top_left(), TextFlow::Horizontal);
    assert_eq!(run.aligned_cells(), None);
    assert_eq!(run.cells(), None);
    let run = TextRun::new("AB", Point::new(i32::MAX - 6, 0), cells(), Alignment::top_left(), TextFlow::Horizontal);
    assert_eq!(run.cells().unwrap().len(), 2);
}

#[test]
fn offsets_round_toward_zero() {
    assert_eq!(HorizontalAlignment::Left.offset(8, 5), 0);
    assert_eq!(HorizontalAlignment::Center.offset(8, 5), 1);
    assert_eq!(HorizontalAlignment::Center.offset(5, 8), -1);
    assert_eq!(HorizontalAlignment::Right.offset(5, 8), -3);
    assert_eq!(VerticalAlignment::Middle.offset(9, 4), 2);
    assert_eq!(VerticalAlignment::Bottom.offset(9, 4), 5);
    assert_eq!(Alignment::bottom_center().offset(Size::new(8, 9), Size::new(5, 4)), (1, 5));
}

#[test]
fn names_the_nine_alignments() {
    let all = [
        (Alignment::top_left(), HorizontalAlignment::Left, VerticalAlignment::Top),
        (Alignment::top_center(), HorizontalAlignment::Center, VerticalAlignment::Top),
        (Alignment::top_right(), HorizontalAlignment::Right, VerticalAlignment::Top),
        (Alignment::middle_left(), HorizontalAlignment::Left, VerticalAlignment::Middle),
        (Alignment::center(), HorizontalAlignment::Center, VerticalAlignment::Middle),
        (Alignment::middle_right(), HorizontalAlignment::Right, VerticalAlignment::Middle),
        (Alignment::bottom_left(), HorizontalAlignment::Left, VerticalAlignment::Bottom),
        (Alignment::bottom_center(), HorizontalAlignment::Center, VerticalAlignment::Bottom),
        (Alignment::bottom_right(), HorizontalAlignment::Right, VerticalAlignment::Bottom),
    ];
    for (a, h, v) in all {
        assert_eq!(a, Alignment::new(h, v));
    }
}

#[test]
fn cell_sizes_pick_by_character() {
    let c = CellSizes::new(Size::new(0, 0), Size::new(0, 0))
        .with_ascii(Size::new(8, 16))
        .with_cjk(Size::new(16, 16));
    assert_eq!(c.for_char('A'), Size::new(8, 16));
    assert_eq!(c.for_char('你'), Size::new(16, 16));
}
