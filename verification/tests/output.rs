use glyph_cell::bpp1::pack_bpp1;
use glyph_cell::codegen::{codepoint_order, pack_glyphs, BitmapGlyph, CodegenFont, FontWriter, GlyphBitmap};
use glyph_cell::font::{FontData, Glyph};
use glyph_cell::font_macros::{raise_glyphs, sorted_unique_chars, write_font_expression_source};
use glyph_cell::raster::{apply_auto_y_offset, glyph_from_raster, BitmapGlyph as RasterGlyph};
use glyph_cell::rust_text::{push_char_literal, push_string_literal};
use glyph_cell::source::parse_font;

fn glyph(codepoint: char, pixels: Vec<bool>) -> BitmapGlyph {
    BitmapGlyph {
        codepoint,
        width: pixels.len() as u16,
        height: 1,
        x_offset: 4,
        y_offset: -1,
        x_advance: 3,
        bitmap: GlyphBitmap::Bpp1(pixels),
    }
}

#[test]
fn writes_string_and_char_literals_as_debug_formatting_does() {
    let text = "a\"\\\n\t\r\0\u{1b}\u{7f}你'\u{ad}\u{301}\u{200b}é";
    let mut s = String::new();
    push_string_literal(&mut s, text);
    assert_eq!(s, format!("{:?}", text));
    for c in ['A', '\'', '"', '\\', '\n', '\u{1}', '你', '\u{ad}', '\u{301}'] {
        let mut s = String::new();
        push_char_literal(&mut s, c);
        assert_eq!(s, format!("{:?}", c));
    }
}

#[test]
fn writes_font_expression_sorted_by_codepoint() {
    let source = write_font_expression_source(
        12,
        vec![glyph('B', vec![true, false]), glyph('A', vec![true, true, true])],
    )
    .unwrap();
    let entry = |offset: u32, width: u16| {
        format!(
            "    embedded_bitmap_font::Glyph {{\n        bitmap_offset: {offset},\n        width: {width},\n        height: 1,\n        x_offset: 4,\n        y_offset: -1,\n        x_advance: 3,\n    }},\n"
        )
    };
    let expected = String::from("const GLYPHS: [embedded_bitmap_font::Glyph; 2] = [\n")
        + &entry(0, 3)
        + &entry(1, 2)
        + "];\n\nconst BITMAP: [u8; 2] = [\n    0b11100000,\n    0b10000000,\n];\n\n"
        + "embedded_bitmap_font::FontData {\n    index: \"AB\",\n    char_size: 12,\n    bitmap: &BITMAP,\n    glyphs: &GLYPHS,\n}\n";
    assert_eq!(source, expected);
}

#[test]
fn writes_ascii_and_sparse_maps() {
    let font = CodegenFont {
        ident: "F".into(),
        size: 8,
        ascent: 7,
        descent: -1,
        line_gap: 0,
        glyphs: vec![glyph('你', vec![true]), glyph('B', vec![false])],
    };
    let source = FontWriter::new(font).write_rust_source().unwrap();
    assert!(source.contains("map[b'B' as usize] = 0"));
    assert!(source.contains("const CMAP: [(char, u16); 1] = [\n    ('你', 1),\n];"));
    assert!(source.contains("descent: -1,"));
    assert!(source.contains("bitmap_offset: 1"));
}

#[test]
fn packs_pixels_and_reads_them_back() {
    let pixels = vec![
        false, true, false, true, false, true, true, true, true, true, false, true, true, false, true,
    ];
    let mut bitmap = vec![0xAA];
    pack_bpp1(&pixels, &mut bitmap);
    assert_eq!(bitmap, vec![0xAA, 0b01010111, 0b11011010]);
    let glyphs = [Glyph { bitmap_offset: 1, width: 3, height: 5, x_offset: 0, y_offset: 5, x_advance: 4 }];
    let font = FontData { index: "A", char_size: 5, bitmap: &bitmap, glyphs: &glyphs };
    let g = font.glyph('A').unwrap();
    for y in 0..5u16 {
        for x in 0..3u16 {
            assert_eq!(font.glyph_pixel(g, x, y), pixels[(y * 3 + x) as usize]);
        }
    }
    assert!(!font.glyph_pixel(g, 3, 0));
    assert!(!font.glyph_pixel(g, 0, 5));
}

#[test]
fn refuses_bytes_that_are_no_font() {
    let err = parse_font(vec![1, 2, 3, 4]).err().unwrap();
    assert!(err.starts_with("failed to parse font: "));
    assert!(err.len() > "failed to parse font: ".len());
}

#[test]
fn sorts_block_characters_once() {
    assert_eq!(sorted_unique_chars(vec!['c', 'a', 'c', 'b', 'a']), vec!['a', 'b', 'c']);
    assert_eq!(sorted_unique_chars(vec![]), Vec::<char>::new());
}

#[test]
fn raises_glyphs_by_block_offset() {
    let mut glyphs = vec![glyph('A', vec![true]), glyph('B', vec![true])];
    raise_glyphs(&mut glyphs, -3);
    assert_eq!(glyphs[0].y_offset, -4);
    assert_eq!(glyphs[1].y_offset, -4);
    assert_eq!(glyphs[1].codepoint, 'B');
}

#[test]
fn builds_glyphs_from_rasters() {
    let g = glyph_from_raster('A', 12, 2, 2, -1, vec![0, 96, 200, 95]);
    assert_eq!((g.width, g.height, g.x_offset, g.y_offset), (2, 2, 5, 1));
    assert_eq!(g.bitmap, vec![false, true, true, false]);
    let blank = glyph_from_raster(' ', 12, 0, 0, 0, vec![]);
    assert_eq!((blank.width, blank.height, blank.x_offset), (1, 1, 5));
    assert_eq!(blank.bitmap, vec![false]);
}

#[test]
fn shifts_a_block_so_it_fits_the_design_box() {
    let mut glyphs = vec![
        RasterGlyph { codepoint: 'A', width: 1, height: 5, x_offset: 0, y_offset: 14, bitmap: vec![true; 5] },
        RasterGlyph { codepoint: 'B', width: 1, height: 4, x_offset: 0, y_offset: 12, bitmap: vec![true; 4] },
    ];
    apply_auto_y_offset(12, &mut glyphs);
    assert_eq!(glyphs[0].y_offset, 12);
    assert_eq!(glyphs[1].y_offset, 10);
}

#[test]
fn generated_bitmap_gives_back_every_glyph() {
    let shapes = vec![
        ('C', 3u16, 2u16, vec![true, false, true, false, true, false]),
        ('A', 2, 2, vec![false, true, true, true]),
        ('B', 5, 3, vec![true, true, false, false, true, false, true, true, true, false, false, false, false, true, true]),
    ];
    let glyphs: Vec<BitmapGlyph> = shapes
        .iter()
        .map(|(c, w, h, p)| BitmapGlyph {
            codepoint: *c,
            width: *w,
            height: *h,
            x_offset: 0,
            y_offset: 0,
            x_advance: 0,
            bitmap: GlyphBitmap::Bpp1(p.clone()),
        })
        .collect();
    let order = codepoint_order(&glyphs);
    assert_eq!(order, vec![1, 2, 0]);
    let (bitmap, offsets) = pack_glyphs(&glyphs, &order);
    let table: Vec<Glyph> = order
        .iter()
        .zip(&offsets)
        .map(|(i, offset)| Glyph {
            bitmap_offset: *offset,
            width: glyphs[*i].width,
            height: glyphs[*i].height,
            x_offset: 0,
            y_offset: 0,
            x_advance: 0,
        })
        .collect();
    let font = FontData { index: "ABC", char_size: 5, bitmap: &bitmap, glyphs: &table };
    for (c, w, h, pixels) in &shapes {
        let g = font.glyph(*c).unwrap();
        for y in 0..*h {
            for x in 0..*w {
                assert_eq!(font.glyph_pixel(g, x, y), pixels[(y * w + x) as usize]);
            }
        }
    }
}

#[test]
fn source_does_not_depend_on_glyph_order() {
    let font = |glyphs: Vec<BitmapGlyph>| CodegenFont {
        ident: "F".into(),
        size: 8,
        ascent: 7,
        descent: -1,
        line_gap: 0,
        glyphs,
    };
    let a = glyph('A', vec![true]);
    let b = glyph('你', vec![false, true]);
    let c = glyph('B', vec![true, true, false]);
    let one = FontWriter::new(font(vec![a.clone(), b.clone(), c.clone()])).write_rust_source().unwrap();
    let two = FontWriter::new(font(vec![b, c, a])).write_rust_source().unwrap();
    assert_eq!(one, two);
}

#[test]
fn a_shifted_block_stays_put() {
    for (h, y) in [(5u16, 14i16), (20, 3), (4, 0)] {
        let mut glyphs = vec![
            RasterGlyph { codepoint: 'A', width: 1, height: h, x_offset: 0, y_offset: y, bitmap: vec![true; h as usize] },
            RasterGlyph { codepoint: 'B', width: 1, height: 4, x_offset: 0, y_offset: 12, bitmap: vec![true; 4] },
        ];
        apply_auto_y_offset(12, &mut glyphs);
        let once = glyphs.clone();
        apply_auto_y_offset(12, &mut glyphs);
        assert_eq!(glyphs, once);
    }
}
