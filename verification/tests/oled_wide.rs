use dotmatrix::display::{Display, WideOledDisplay};
use dotmatrix::transaction::Transaction;

fn drained(d: &mut WideOledDisplay) -> Vec<Transaction> {
    d.take_transactions()
}

#[test]
fn wide_init_sequence() {
    let mut d = WideOledDisplay::new();
    let tx = drained(&mut d);
    assert_eq!(
        tx,
        vec![
            Transaction::Reset(true),
            Transaction::DelayMs(10),
            Transaction::Reset(false),
            Transaction::DelayMs(10),
            Transaction::Reset(true),
            Transaction::Command(vec![0x20, 0x00, 0xa1, 0xc8, 0xaf]),
        ]
    );
}

#[test]
fn wide_geometry_and_palette() {
    let d = WideOledDisplay::new();
    assert_eq!(d.width(), 128);
    assert_eq!(d.height(), 64);
    assert_eq!(d.light_color(), true);
    assert_eq!(d.dark_color(), false);
}

#[test]
fn wide_packs_topmost_pixel_into_bit_zero() {
    let mut d = WideOledDisplay::new();
    drained(&mut d);
    // Top-to-bottom colours light, then seven dark, in one column.
    d.set_frame_memory_from_callback(|_px, py| py == 0, 0, 0, 1, 8);
    let tx = drained(&mut d);
    assert_eq!(tx[0], Transaction::Command(vec![0x21, 0x00, 0x00]));
    assert_eq!(tx[1], Transaction::Command(vec![0x22, 0x00, 0x00]));
    assert_eq!(tx[2], Transaction::Data(vec![0b0000_0001]));
    assert_eq!(tx.len(), 3);
}

#[test]
fn wide_page_bit_order_is_vertical() {
    let mut d = WideOledDisplay::new();
    drained(&mut d);
    // Light pixels on rows 1 and 7 give bits 1 and 7.
    d.set_frame_memory_from_callback(|_px, py| py == 1 || py == 7, 0, 0, 1, 8);
    let tx = drained(&mut d);
    assert_eq!(tx[2], Transaction::Data(vec![0b1000_0010]));
}

#[test]
fn wide_always_programs_the_window() {
    let mut d = WideOledDisplay::new();
    drained(&mut d);
    // The origin lies right of the panel; the two addressing commands still
    // go out, with no data after them.
    d.set_frame_memory_from_callback(|_px, _py| true, 200, 0, 8, 8);
    let tx = drained(&mut d);
    assert_eq!(tx.len(), 2);
    assert_eq!(tx[0], Transaction::Command(vec![0x21, 200, 127]));
    assert_eq!(tx[1], Transaction::Command(vec![0x22, 0x00, 0x00]));
}

#[test]
fn wide_clear_is_idempotent_on_device() {
    let mut d = WideOledDisplay::new();
    drained(&mut d);
    d.clear_frame_memory(false);
    let first = drained(&mut d);
    d.clear_frame_memory(false);
    let second = drained(&mut d);
    assert_eq!(first, second);
    // 128 columns on 8 pages, after the two window commands.
    assert_eq!(first.len(), 2 + 128 * 8);
    assert_eq!(first[2], Transaction::Data(vec![0x00]));
}

#[test]
fn wide_raw_sends_page_slices() {
    let mut d = WideOledDisplay::new();
    drained(&mut d);
    let buffer: Vec<u8> = vec![1, 2, 3, 4, 5, 6, 7, 8, 9];
    d.set_frame_memory_from_raw(&buffer, 0, 0, 8, 16);
    let tx = drained(&mut d);
    assert_eq!(tx[0], Transaction::Command(vec![0x21, 0x00, 0x07]));
    assert_eq!(tx[1], Transaction::Command(vec![0x22, 0x00, 0x01]));
    // Page row l starts at byte l * 8 / 8 = l and takes 8 bytes.
    assert_eq!(tx[2], Transaction::Data(vec![1, 2, 3, 4, 5, 6, 7, 8]));
    assert_eq!(tx[3], Transaction::Data(vec![2, 3, 4, 5, 6, 7, 8, 9]));
    assert_eq!(tx.len(), 4);
}

#[test]
fn wide_display_frame_is_a_no_op() {
    let mut d = WideOledDisplay::new();
    drained(&mut d);
    d.display_frame();
    assert_eq!(drained(&mut d).len(), 0);
}
