use glyph_cell::font_names::check_font_names;
use glyph_cell::source::parse_font;

/// A font file with one `name` table holding the given records (platform, encoding,
/// name id, text).
fn font_with_names(records: &[(u16, u16, u16, &[u8])]) -> Vec<u8> {
    let mut storage = Vec::new();
    let mut table = Vec::new();
    let storage_offset = 6 + 12 * records.len() as u16;
    table.extend_from_slice(&[0, 0]);
    table.extend_from_slice(&(records.len() as u16).to_be_bytes());
    table.extend_from_slice(&storage_offset.to_be_bytes());
    for (platform, encoding, id, text) in records {
        table.extend_from_slice(&platform.to_be_bytes());
        table.extend_from_slice(&encoding.to_be_bytes());
        table.extend_from_slice(&[0x04, 0x09]);
        table.extend_from_slice(&id.to_be_bytes());
        table.extend_from_slice(&(text.len() as u16).to_be_bytes());
        table.extend_from_slice(&(storage.len() as u16).to_be_bytes());
        storage.extend_from_slice(text);
    }
    table.extend_from_slice(&storage);
    let mut b = vec![0x00, 0x01, 0x00, 0x00, 0x00, 0x01, 0, 0, 0, 0, 0, 0];
    b.extend_from_slice(b"name");
    b.extend_from_slice(&[0, 0, 0, 0]);
    b.extend_from_slice(&28u32.to_be_bytes());
    b.extend_from_slice(&(table.len() as u32).to_be_bytes());
    b.extend_from_slice(&table);
    b
}

fn font_with_full_name(name: &[u8]) -> Vec<u8> {
    font_with_names(&[(3, 1, 4, name)])
}

#[test]
fn accepts_well_formed_full_names() {
    assert!(check_font_names(&font_with_full_name(&[0x00, 0x41, 0x00, 0x42])));
    assert!(check_font_names(&font_with_full_name(&[0xD8, 0x3D, 0xDE, 0x00])));
    assert!(check_font_names(&vec![1, 2, 3]));
}

#[test]
fn refuses_malformed_full_names() {
    assert!(!check_font_names(&font_with_full_name(&[0x00, 0x41, 0x00])));
    assert!(!check_font_names(&font_with_full_name(&[0xD8, 0x00, 0x00, 0x41])));
    assert!(!check_font_names(&font_with_full_name(&[0xDC, 0x00])));
    assert!(!check_font_names(&font_with_full_name(&[0x00, 0x41, 0xD8, 0x00])));
    let err = parse_font(font_with_full_name(&[0x00, 0x41, 0x00])).err().unwrap();
    assert_eq!(err, "failed to parse font: the font name is not well-formed UTF-16");
}

#[test]
fn looks_only_at_the_full_name_that_is_decoded() {
    // A well-formed first full name hides a malformed later one.
    assert!(check_font_names(&font_with_names(&[(3, 1, 4, &[0x00, 0x41]), (0, 3, 4, &[0xDC])])));
    // Other names and full names in other encodings are passed over.
    assert!(!check_font_names(&font_with_names(&[(3, 1, 1, &[0x00, 0x41]), (1, 0, 4, &[0x41]), (0, 3, 4, &[0xDC])])));
    assert!(check_font_names(&font_with_names(&[(1, 0, 4, &[0x41]), (3, 1, 1, &[0xDC])])));
    // Reading stops at a record of an unknown platform.
    assert!(check_font_names(&font_with_names(&[(7, 0, 1, &[]), (0, 3, 4, &[0xDC])])));
}

#[test]
fn passes_well_named_files_on_to_the_parser() {
    let err = parse_font(font_with_full_name(&[0x00, 0x41])).err().unwrap();
    assert!(err.starts_with("failed to parse font: "));
    assert_ne!(err, "failed to parse font: the font name is not well-formed UTF-16");
    let err = parse_font(font_with_names(&[(3, 1, 4, &[0x00, 0x41]), (0, 3, 4, &[0xDC])])).err().unwrap();
    assert_ne!(err, "failed to parse font: the font name is not well-formed UTF-16");
}
