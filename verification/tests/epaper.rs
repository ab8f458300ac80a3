use dotmatrix::display::{Display, EpaperDisplay};
use dotmatrix::transaction::Transaction;

fn drained(d: &mut EpaperDisplay) -> Vec<Transaction> {
    d.take_transactions()
}

#[test]
fn epaper_init_sequence() {
    let mut d = EpaperDisplay::new();
    let tx = drained(&mut d);
    assert_eq!(tx.len(), 23);
    assert_eq!(tx[0], Transaction::DelayMs(10));
    assert_eq!(tx[1], Transaction::Reset(false));
    assert_eq!(tx[2], Transaction::DelayMs(200));
    assert_eq!(tx[3], Transaction::Reset(true));
    assert_eq!(tx[4], Transaction::DelayMs(200));
    assert_eq!(tx[5], Transaction::Command(vec![0x01]));
    assert_eq!(tx[6], Transaction::Data(vec![0xC7, 0x00, 0x00]));
    assert_eq!(tx[7], Transaction::Command(vec![0x11]));
    assert_eq!(tx[8], Transaction::Data(vec![0x03]));
    assert_eq!(tx[9], Transaction::Command(vec![0x44]));
    assert_eq!(tx[10], Transaction::Data(vec![0x00, 0x18]));
    assert_eq!(tx[11], Transaction::Command(vec![0x45]));
    assert_eq!(tx[12], Transaction::Data(vec![0xC7, 0x00, 0x00, 0x00]));
    assert_eq!(tx[13], Transaction::Command(vec![0x3C]));
    assert_eq!(tx[14], Transaction::Data(vec![0x01]));
    assert_eq!(tx[15], Transaction::Command(vec![0x21]));
    assert_eq!(tx[16], Transaction::Data(vec![0x00]));
    assert_eq!(tx[17], Transaction::Command(vec![0x18]));
    assert_eq!(tx[18], Transaction::Data(vec![0x80]));
    assert_eq!(tx[19], Transaction::Command(vec![0x22]));
    assert_eq!(tx[20], Transaction::Data(vec![0xB1]));
    assert_eq!(tx[21], Transaction::Command(vec![0x20]));
    assert_eq!(tx[22], Transaction::WaitIdle);
}

#[test]
fn epaper_geometry_and_palette() {
    let d = EpaperDisplay::new();
    assert_eq!(d.width(), 200);
    assert_eq!(d.height(), 200);
    // A set bit on the wire is the dark colour for this panel.
    assert_eq!(d.dark_color(), true);
    assert_eq!(d.light_color(), false);
}

#[test]
fn epaper_packs_row_most_significant_pixel_first() {
    let mut d = EpaperDisplay::new();
    drained(&mut d);
    // Seven dark pixels then one light pixel on one scan line.
    d.set_frame_memory_from_callback(|px, _py| px < 7, 0, 0, 8, 1);
    let tx = drained(&mut d);
    // Window registers, then one line: pointer, write RAM, one byte.
    assert_eq!(tx[0], Transaction::Command(vec![0x44]));
    assert_eq!(tx[1], Transaction::Data(vec![0x00, 0x00]));
    assert_eq!(tx[2], Transaction::Command(vec![0x45]));
    assert_eq!(tx[3], Transaction::Data(vec![0x00, 0x00, 0x00, 0x00]));
    assert_eq!(tx[4], Transaction::Command(vec![0x4E]));
    assert_eq!(tx[5], Transaction::Data(vec![0x00]));
    assert_eq!(tx[6], Transaction::Command(vec![0x4F]));
    assert_eq!(tx[7], Transaction::Data(vec![0x00, 0x00]));
    assert_eq!(tx[8], Transaction::WaitIdle);
    assert_eq!(tx[9], Transaction::Command(vec![0x24]));
    assert_eq!(tx[10], Transaction::Data(vec![0b1111_1110]));
    assert_eq!(tx.len(), 11);
}

#[test]
fn epaper_masks_origin_and_width_to_byte_columns() {
    let mut d = EpaperDisplay::new();
    drained(&mut d);
    // x = 13 aligns down to 8, width 13 aligns down to 8.
    d.set_frame_memory_from_callback(|_px, _py| true, 13, 0, 13, 1);
    let tx = drained(&mut d);
    // Window: columns 8..=15, in byte units 1..=1.
    assert_eq!(tx[0], Transaction::Command(vec![0x44]));
    assert_eq!(tx[1], Transaction::Data(vec![0x01, 0x01]));
    // One 8-pixel group of all-dark pixels.
    assert_eq!(tx[10], Transaction::Data(vec![0xFF]));
    assert_eq!(tx.len(), 11);
}

#[test]
fn epaper_transmits_even_when_width_collapses() {
    let mut d = EpaperDisplay::new();
    drained(&mut d);
    // Width 4 aligns down to zero columns, yet the window registers and the
    // line writes still go out.
    d.set_frame_memory_from_callback(|_px, _py| true, 8, 0, 4, 1);
    let tx = drained(&mut d);
    assert!(!tx.is_empty());
    assert_eq!(tx[0], Transaction::Command(vec![0x44]));
    // One line with no data groups: pointer, write RAM, nothing else.
    assert_eq!(tx[9], Transaction::Command(vec![0x24]));
    assert_eq!(tx.len(), 10);
}

#[test]
fn epaper_commit_blocks_on_busy() {
    let mut d = EpaperDisplay::new();
    drained(&mut d);
    d.display_frame();
    let tx = drained(&mut d);
    assert_eq!(
        tx,
        vec![
            Transaction::Command(vec![0x22]),
            Transaction::Data(vec![0xC7]),
            Transaction::Command(vec![0x20]),
            Transaction::WaitIdle,
        ]
    );
}

#[test]
fn epaper_buffer_matches_handcrafted_callback() {
    let mut a = EpaperDisplay::new();
    let mut b = EpaperDisplay::new();
    drained(&mut a);
    drained(&mut b);
    let mut buffer: Vec<bool> = Vec::new();
    for i in 0..64 {
        buffer.push(i % 3 == 0);
    }
    a.set_frame_memory_from_buffer(&buffer, 8, 16, 8, 8);
    b.set_frame_memory_from_callback(
        |px, py| ((py - 16) * 8 + (px - 8)) % 3 == 0,
        8,
        16,
        8,
        8,
    );
    let ta = drained(&mut a);
    let tb = drained(&mut b);
    assert_eq!(ta, tb);
}

#[test]
fn epaper_raw_sends_line_slices() {
    let mut d = EpaperDisplay::new();
    drained(&mut d);
    let buffer: Vec<u8> = vec![0xAA, 0x55, 0x0F];
    d.set_frame_memory_from_raw(&buffer, 0, 0, 8, 2);
    let tx = drained(&mut d);
    // Window registers, then two lines of one byte each.
    assert_eq!(tx[0], Transaction::Command(vec![0x44]));
    assert_eq!(tx[9], Transaction::Command(vec![0x24]));
    assert_eq!(tx[10], Transaction::Data(vec![0xAA]));
    assert_eq!(tx[16], Transaction::Command(vec![0x24]));
    assert_eq!(tx[17], Transaction::Data(vec![0x55]));
    assert_eq!(tx.len(), 18);
}

#[test]
fn epaper_clipped_window_stays_on_panel() {
    let mut d = EpaperDisplay::new();
    drained(&mut d);
    // The window reaches past the right edge and is clipped to column 199,
    // byte column 24.
    d.set_frame_memory_from_callback(|_px, _py| false, 192, 199, 16, 5);
    let tx = drained(&mut d);
    assert_eq!(tx[1], Transaction::Data(vec![24, 24]));
    assert_eq!(tx[3], Transaction::Data(vec![199, 0, 199, 0]));
}

#[test]
fn epaper_full_panel_clear_length() {
    let mut d = EpaperDisplay::new();
    drained(&mut d);
    d.clear_frame_memory(false);
    let tx = drained(&mut d);
    // Window registers, then 200 lines of pointer (5), write RAM (1) and 25
    // byte groups each.
    assert_eq!(tx.len(), 4 + 200 * (5 + 1 + 25));
    assert_eq!(tx[1], Transaction::Data(vec![0, 24]));
    assert_eq!(tx[10], Transaction::Data(vec![0x00]));
}

#[test]
fn epaper_clips_bottom_edge() {
    let mut d = EpaperDisplay::new();
    drained(&mut d);
    // Rows 196..=203 requested; rows 196..=199 written.
    d.set_frame_memory_from_callback(|_px, _py| true, 0, 196, 8, 8);
    let tx = drained(&mut d);
    assert_eq!(tx[3], Transaction::Data(vec![196, 0, 199, 0]));
    // Four lines of pointer + write RAM + one group.
    assert_eq!(tx.len(), 4 + 4 * 7);
}
