use glyph_cell::font_macros::centered_x_offset;
use glyph_cell::raster::{centered_offset, y_offset_delta, BitmapGlyph};

#[test]
fn lib_centers_glyph_bitmap_in_design_box() {
    assert_eq!(centered_x_offset(24, 10), 7);
    assert_eq!(centered_x_offset(24, 24), 0);
    assert_eq!(centered_x_offset(24, 28), -2);
}

#[test]
fn raster_centers_glyph_bitmap_in_design_box() {
    assert_eq!(centered_offset(24, 10), 7);
    assert_eq!(centered_offset(24, 24), 0);
    assert_eq!(centered_offset(24, 28), -2);
}

#[test]
fn keeps_glyphs_that_already_fit_in_place() {
    assert_eq!(y_offset_delta(12, &[glyph(5, 10), glyph(4, 8)]), 0);
}

#[test]
fn moves_font_block_down_until_top_fits() {
    assert_eq!(y_offset_delta(12, &[glyph(5, 14), glyph(4, 12)]), -2);
}

#[test]
fn moves_font_block_up_until_bottom_fits() {
    assert_eq!(y_offset_delta(12, &[glyph(5, 3), glyph(4, 4)]), 2);
}

fn glyph(height: u16, y_offset: i16) -> BitmapGlyph {
    BitmapGlyph {
        codepoint: 'A',
        width: 1,
        height,
        x_offset: 0,
        y_offset,
        bitmap: vec![true; height as usize],
    }
}
