use glyph_cell::font_macros::indexed_blocks;
use glyph_cell::literal::{
    parse_i16_literal, parse_u16_literal, parse_y_offset, LiteralError, OffsetError, OffsetExpr,
    OffsetSite,
};
use glyph_cell::macro_input::{
    same_text, FinishError, FontDataKey, FontDataParser, KeyError,
};
use glyph_cell::source::{choose_font_path, unresolved_font_path_message, FontPathChoice};

type Parser = FontDataParser<u16, &'static str, i16>;

fn feed(parser: &mut Parser, key: &str, value: &'static str) -> Result<(), KeyError> {
    match parser.key(key)? {
        FontDataKey::Size => parser.set_size(parse_u16_literal(value).unwrap()),
        FontDataKey::Path => parser.start_block(value),
        FontDataKey::Index => parser.set_index(value, value.to_string()),
        FontDataKey::YOffset => parser.set_y_offset(value.parse().unwrap()),
    }
    Ok(())
}

#[test]
fn reads_multiple_font_blocks_in_order() {
    let mut parser = Parser::new(true);
    feed(&mut parser, "size", "18").unwrap();
    feed(&mut parser, "path", "a.ttf").unwrap();
    feed(&mut parser, "index", "AB").unwrap();
    feed(&mut parser, "path", "b.otf").unwrap();
    feed(&mut parser, "index", "你").unwrap();
    feed(&mut parser, "y_offset", "-2").unwrap();
    let input = parser.finish().ok().unwrap();
    assert_eq!(input.size, 18);
    assert_eq!(input.blocks.len(), 2);
    assert_eq!(input.blocks[0].path, "a.ttf");
    assert_eq!(input.blocks[0].index_text, "AB");
    assert_eq!(input.blocks[0].y_offset, None);
    assert_eq!(input.blocks[1].path, "b.otf");
    assert_eq!(input.blocks[1].index, "你");
    assert_eq!(input.blocks[1].y_offset, Some(-2));
}

#[test]
fn later_size_replaces_earlier_one() {
    let mut parser = Parser::new(false);
    feed(&mut parser, "size", "12").unwrap();
    feed(&mut parser, "path", "a.ttf").unwrap();
    feed(&mut parser, "index", "A").unwrap();
    feed(&mut parser, "size", "16").unwrap();
    assert_eq!(parser.finish().ok().unwrap().size, 16);
}

#[test]
fn refuses_index_before_path() {
    let parser = Parser::new(true);
    let err = parser.key("index").unwrap_err();
    assert_eq!(err, KeyError::IndexBeforePath);
    assert_eq!(err.message(), "index must follow path");
}

#[test]
fn refuses_second_index_for_a_block() {
    let mut parser = Parser::new(false);
    feed(&mut parser, "path", "a.ttf").unwrap();
    feed(&mut parser, "index", "A").unwrap();
    let err = parser.key("index").unwrap_err();
    assert_eq!(err, KeyError::DuplicateIndex);
    assert_eq!(err.message(), "duplicate index for font block");
}

#[test]
fn empty_index_leaves_room_for_another() {
    let mut parser = Parser::new(false);
    feed(&mut parser, "path", "a.ttf").unwrap();
    feed(&mut parser, "index", "").unwrap();
    feed(&mut parser, "index", "A").unwrap();
    feed(&mut parser, "size", "8").unwrap();
    let input = parser.finish().ok().unwrap();
    assert_eq!(input.blocks[0].index_text, "A");
}

#[test]
fn refuses_y_offset_before_path_and_twice() {
    let mut parser = Parser::new(true);
    let err = parser.key("y_offset").unwrap_err();
    assert_eq!(err, KeyError::YOffsetBeforePath);
    assert_eq!(err.message(), "y_offset must follow path");
    feed(&mut parser, "path", "a.ttf").unwrap();
    feed(&mut parser, "y_offset", "1").unwrap();
    let err = parser.key("y_offset").unwrap_err();
    assert_eq!(err, KeyError::DuplicateYOffset);
    assert_eq!(err.message(), "duplicate y_offset for font block");
}

#[test]
fn refuses_unknown_keys() {
    let with = Parser::new(true);
    let err = with.key("glyphs").unwrap_err();
    assert_eq!(err.message(), "expected size, path, index, or y_offset");
    let without = Parser::new(false);
    let err = without.key("y_offset").unwrap_err();
    assert_eq!(err, KeyError::Unexpected { with_y_offset: false });
    assert_eq!(err.message(), "expected size, path, or index");
}

#[test]
fn refuses_input_without_block() {
    let mut parser = Parser::new(false);
    feed(&mut parser, "size", "8").unwrap();
    let err = parser.finish().err().unwrap();
    assert_eq!(err, FinishError::MissingBlock);
    assert_eq!(err.message(), "missing font block");
}

#[test]
fn reports_first_block_without_index() {
    let mut parser = Parser::new(false);
    feed(&mut parser, "size", "8").unwrap();
    feed(&mut parser, "path", "a.ttf").unwrap();
    feed(&mut parser, "index", "A").unwrap();
    feed(&mut parser, "path", "b.ttf").unwrap();
    feed(&mut parser, "path", "c.ttf").unwrap();
    let err = parser.finish().err().unwrap();
    assert_eq!(err, FinishError::MissingIndex(1));
    assert_eq!(err.message(), "missing index for font block");
}

#[test]
fn refuses_input_without_size() {
    let mut parser = Parser::new(false);
    feed(&mut parser, "path", "a.ttf").unwrap();
    feed(&mut parser, "index", "A").unwrap();
    let err = parser.finish().err().unwrap();
    assert_eq!(err, FinishError::MissingSize);
    assert_eq!(err.message(), "missing size");
}

#[test]
fn compares_texts() {
    assert!(same_text("size", "size"));
    assert!(!same_text("size", "sizes"));
    assert!(!same_text("path", "pant"));
}

#[test]
fn reads_literal_digits() {
    assert_eq!(parse_u16_literal("18"), Ok(18));
    assert_eq!(parse_u16_literal("65535"), Ok(65535));
    assert_eq!(parse_u16_literal("65536"), Err(LiteralError::TooLarge));
    assert_eq!(parse_u16_literal("99999999999999999999"), Err(LiteralError::TooLarge));
    assert_eq!(parse_u16_literal(""), Err(LiteralError::Empty));
    assert_eq!(parse_u16_literal("1x"), Err(LiteralError::InvalidDigit));
    assert_eq!(parse_i16_literal("32767"), Ok(32767));
    assert_eq!(parse_i16_literal("32768"), Err(LiteralError::TooLarge));
    assert_eq!(LiteralError::TooLarge.message(), "number too large to fit in target type");
    assert_eq!(LiteralError::Empty.message(), "cannot parse integer from empty string");
    assert_eq!(LiteralError::InvalidDigit.message(), "invalid digit found in string");
}

#[test]
fn reads_y_offsets() {
    assert_eq!(parse_y_offset(&OffsetExpr::Int("12".to_string())), Ok(12));
    assert_eq!(parse_y_offset(&OffsetExpr::NegatedInt("7".to_string())), Ok(-7));
    assert_eq!(parse_y_offset(&OffsetExpr::NegatedInt("32767".to_string())), Ok(-32767));
    assert_eq!(
        parse_y_offset(&OffsetExpr::NegatedInt("32768".to_string())),
        Err(OffsetError::Literal(LiteralError::TooLarge))
    );
    assert_eq!(
        parse_y_offset(&OffsetExpr::OtherLiteral),
        Err(OffsetError::NotInteger(OffsetSite::Literal))
    );
    assert_eq!(
        parse_y_offset(&OffsetExpr::NegatedOtherLiteral),
        Err(OffsetError::NotInteger(OffsetSite::Literal))
    );
    assert_eq!(
        parse_y_offset(&OffsetExpr::NegatedOther),
        Err(OffsetError::NotInteger(OffsetSite::Operand))
    );
    let err = parse_y_offset(&OffsetExpr::Other).unwrap_err();
    assert_eq!(err, OffsetError::NotInteger(OffsetSite::Expression));
    assert_eq!(err.message(), "y_offset must be an integer literal");
}

#[test]
fn chooses_the_first_existing_font_path() {
    assert_eq!(choose_font_path(true, &vec![true, true]), Some(FontPathChoice::AsWritten));
    assert_eq!(
        choose_font_path(false, &vec![false, true, true]),
        Some(FontPathChoice::Candidate(1))
    );
    assert_eq!(choose_font_path(false, &vec![false, false]), None);
    assert_eq!(
        unresolved_font_path_message("assets/a \"b\".ttf"),
        "failed to resolve font path \"assets/a \\\"b\\\".ttf\": tried current directory, caller CARGO_MANIFEST_DIR, macro crate, and workspace root"
    );
}

#[test]
fn font_data_rejects_duplicate_index_characters() {
    let err = indexed_blocks(&vec!["AB".to_string(), "CBA".to_string()]).unwrap_err();
    assert_eq!(err.ch, 'B');
    assert_eq!(err.first_block, 0);
    assert_eq!(err.block, 1);
    assert_eq!(
        err.message("AB"),
        "duplicate index character 'B'; first seen in index \"AB\""
    );
}

#[test]
fn indexes_each_block_once_in_order() {
    let blocks = indexed_blocks(&vec!["ABA".to_string(), "你好你".to_string()]).unwrap();
    assert_eq!(blocks, vec![vec!['A', 'B'], vec!['你', '好']]);
}
