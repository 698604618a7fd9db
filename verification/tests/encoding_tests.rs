//! Byte-column and UTF-16 conversion within a line, and offset/line/column
//! mapping over a whole document.

use jvl::text::{
    byte_col_to_lsp, compute_line_starts, line_col_to_offset, lsp_col_to_byte, offset_to_line_col,
    strip_bom,
};

/// UTF-16 column offset for a byte position in a line.
fn utf16_col(s: &str, byte_col: usize) -> u32 {
    byte_col_to_lsp(s.as_bytes(), byte_col, false)
}

#[test]
fn ascii_utf8_and_utf16_agree() {
    // For pure ASCII, byte offsets == UTF-8 == UTF-16.
    let line = "hello world";
    assert_eq!(utf16_col(line, 5), 5);
    assert_eq!(utf16_col(line, 11), 11);
}

#[test]
fn two_byte_char_utf16_offset() {
    // 'é' = U+00E9, encoded as 2 bytes in UTF-8, 1 code unit in UTF-16.
    let line = "caf\u{00E9}s"; // "cafés", byte len = 6
    assert_eq!(utf16_col(line, 3), 3); // "caf" = 3 UTF-16 units
    assert_eq!(utf16_col(line, 5), 4); // "café" = 4 UTF-16 units
}

#[test]
fn emoji_utf16_offset() {
    // '🏴' = U+1F3F4, encoded as 4 bytes in UTF-8, 2 surrogate pairs in UTF-16.
    let line = "flag: 🏴 end";
    assert_eq!(utf16_col(line, 6), 6); // "flag: " = 6 chars = 6 UTF-16 units
    assert_eq!(utf16_col(line, 10), 8); // emoji takes 2 UTF-16 units, so 6+2=8
}

#[test]
fn cjk_char_utf16_offset() {
    // '漢' = U+6F22, encoded as 3 bytes in UTF-8, 1 code unit in UTF-16.
    let line = "漢字"; // 2 CJK chars = 6 bytes
    assert_eq!(utf16_col(line, 3), 1); // "漢" = 1 UTF-16 unit
    assert_eq!(utf16_col(line, 6), 2); // "漢字" = 2 UTF-16 units
}

#[test]
fn utf16_col_round_trips_through_byte_col() {
    let line = "a\u{00E9}b🏴c";
    for byte_col in [0usize, 1, 3, 4, 8] {
        let units = byte_col_to_lsp(line.as_bytes(), byte_col, false);
        assert_eq!(lsp_col_to_byte(line.as_bytes(), units, false), byte_col);
    }
}

#[test]
fn utf8_mode_is_the_identity_on_valid_columns() {
    let line = "plain text";
    for byte_col in 0..line.len() {
        assert_eq!(byte_col_to_lsp(line.as_bytes(), byte_col, true), byte_col as u32);
        assert_eq!(lsp_col_to_byte(line.as_bytes(), byte_col as u32, true), byte_col);
    }
}

#[test]
fn offset_line_col_round_trip() {
    let source = "ab\ncdef\n\nxyz";
    let starts = compute_line_starts(source.as_bytes());
    for offset in 0..source.len() {
        let (line, col) = offset_to_line_col(&starts, offset);
        assert_eq!(line_col_to_offset(&starts, line, col), offset);
    }
}

#[test]
fn offset_to_line_col_positions() {
    let source = "abc\ndef\nghi";
    let starts = compute_line_starts(source.as_bytes());
    assert_eq!(offset_to_line_col(&starts, 0), (1, 1));
    assert_eq!(offset_to_line_col(&starts, 3), (1, 4));
    assert_eq!(offset_to_line_col(&starts, 4), (2, 1));
    assert_eq!(offset_to_line_col(&starts, 9), (3, 2));
}

#[test]
fn strip_bom_removes_leading_byte_order_mark() {
    let with_bom = [0xEFu8, 0xBB, 0xBF, b'{', b'}'];
    assert_eq!(strip_bom(&with_bom), b"{}");
    assert_eq!(strip_bom(b"{}"), b"{}");
}
