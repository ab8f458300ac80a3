use dotmatrix::display::{Display, EpaperDisplay, WideOledDisplay};
use dotmatrix::text::{GlyphFont, Writer};
use dotmatrix::transaction::Transaction;

/// A font whose glyph for `A` has only the top-left pixel set and whose
/// glyph for `B` is solid.
fn test_font() -> GlyphFont {
    let mut rows = vec![0u8; 2048];
    rows[b'A' as usize * 8] = 0x01;
    for r in 0..8 {
        rows[b'B' as usize * 8 + r] = 0xFF;
    }
    GlyphFont::new(rows).unwrap()
}

#[test]
fn font_accepts_exactly_2048_rows() {
    assert!(GlyphFont::new(vec![0u8; 2048]).is_some());
    assert!(GlyphFont::new(vec![0u8; 2047]).is_none());
    assert!(GlyphFont::new(Vec::new()).is_none());
}

#[test]
fn rendering_is_deterministic() {
    let font = test_font();
    let mut d = WideOledDisplay::new();
    d.take_transactions();
    d.write_string(&font, "AB", 8, 8, true, false);
    let first = d.take_transactions();
    d.write_string(&font, "AB", 8, 8, true, false);
    let second = d.take_transactions();
    assert_eq!(first, second);
    assert!(!first.is_empty());
}

#[test]
fn wide_renders_top_left_pixel_into_bit_zero() {
    let font = test_font();
    let mut d = WideOledDisplay::new();
    d.take_transactions();
    d.write_string(&font, "A", 0, 0, true, false);
    let tx = d.take_transactions();
    // One 8 x 8 cell: column window 0..=7, page 0, eight column bytes.
    assert_eq!(tx.len(), 2 + 8);
    assert_eq!(tx[0], Transaction::Command(vec![0x21, 0x00, 0x07]));
    assert_eq!(tx[1], Transaction::Command(vec![0x22, 0x00, 0x00]));
    // Only the top pixel of the first column is set.
    assert_eq!(tx[2], Transaction::Data(vec![0x01]));
    for i in 3..10 {
        assert_eq!(tx[i], Transaction::Data(vec![0x00]));
    }
}

#[test]
fn epaper_renders_leftmost_pixel_into_most_significant_bit() {
    let font = test_font();
    let mut d = EpaperDisplay::new();
    d.take_transactions();
    // Foreground dark (a set wire bit), background light.
    d.write_string(&font, "A", 0, 0, true, false);
    let tx = d.take_transactions();
    // Window registers, then eight lines of pointer + write RAM + one byte.
    assert_eq!(tx.len(), 4 + 8 * 7);
    // First glyph row: only column 0 is set, which is the most significant
    // wire bit.
    assert_eq!(tx[10], Transaction::Data(vec![0x80]));
    // Remaining rows are background.
    assert_eq!(tx[17], Transaction::Data(vec![0x00]));
}

#[test]
fn solid_glyph_fills_its_cell() {
    let font = test_font();
    let mut d = WideOledDisplay::new();
    d.take_transactions();
    d.write_string(&font, "B", 16, 8, true, false);
    let tx = d.take_transactions();
    assert_eq!(tx.len(), 2 + 8);
    assert_eq!(tx[0], Transaction::Command(vec![0x21, 16, 23]));
    assert_eq!(tx[1], Transaction::Command(vec![0x22, 1, 1]));
    for i in 2..10 {
        assert_eq!(tx[i], Transaction::Data(vec![0xFF]));
    }
}

#[test]
fn cursor_advances_eight_pixels_per_glyph() {
    let font = test_font();
    let mut d = WideOledDisplay::new();
    d.take_transactions();
    d.write_string(&font, "BB", 0, 0, true, false);
    let tx = d.take_transactions();
    // Two cells: each programs its own window, eight pixels apart.
    assert_eq!(tx.len(), 2 * (2 + 8));
    assert_eq!(tx[0], Transaction::Command(vec![0x21, 0, 7]));
    assert_eq!(tx[10], Transaction::Command(vec![0x21, 8, 15]));
}

#[test]
fn empty_text_renders_nothing() {
    let font = test_font();
    let mut d = WideOledDisplay::new();
    d.take_transactions();
    d.write_string(&font, "", 0, 0, true, false);
    assert_eq!(d.take_transactions().len(), 0);
}

#[test]
fn gray_renders_nibble_glyphs() {
    let font = test_font();
    let mut d = dotmatrix::display::OledDisplay::new();
    d.take_transactions();
    d.write_string(&font, "A", 0, 0, 0xF, 0x0);
    let tx = d.take_transactions();
    // One 8 x 8 cell: four column pairs on eight rows.
    assert_eq!(tx.len(), 2 + 4 * 8);
    assert_eq!(tx[0], Transaction::Command(vec![0x15, 0, 3]));
    assert_eq!(tx[1], Transaction::Command(vec![0x75, 0, 7]));
    // Only the top-left pixel is set: high nibble of the first pair.
    assert_eq!(tx[2], Transaction::Data(vec![0xF0]));
    assert_eq!(tx[3], Transaction::Data(vec![0x00]));
}
