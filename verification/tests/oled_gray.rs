use dotmatrix::display::{Display, OledDisplay};
use dotmatrix::transaction::Transaction;

fn drained(d: &mut OledDisplay) -> Vec<Transaction> {
    d.take_transactions()
}

#[test]
fn gray_init_sequence() {
    let mut d = OledDisplay::new();
    let tx = drained(&mut d);
    assert_eq!(tx.len(), 9);
    assert_eq!(tx[0], Transaction::Reset(true));
    assert_eq!(tx[1], Transaction::DelayMs(100));
    assert_eq!(tx[2], Transaction::Reset(false));
    assert_eq!(tx[3], Transaction::DelayMs(100));
    assert_eq!(tx[4], Transaction::Reset(true));
    assert_eq!(tx[5], Transaction::DelayMs(100));
    match &tx[6] {
        Transaction::Command(block) => {
            assert_eq!(block.len(), 33);
            assert_eq!(block[0], 0xae);
            assert_eq!(block[8], 0xa8);
            assert_eq!(block[9], 0x7f);
            assert_eq!(block[30], 0xaf);
        }
        other => panic!("expected the configuration command, found {:?}", other),
    }
    assert_eq!(tx[7], Transaction::DelayMs(200));
    assert_eq!(tx[8], Transaction::Command(vec![0xaf]));
}

#[test]
fn gray_geometry_and_palette() {
    let d = OledDisplay::new();
    assert_eq!(d.width(), 128);
    assert_eq!(d.height(), 128);
    assert_eq!(d.light_color(), 0xF);
    assert_eq!(d.dark_color(), 0x0);
}

#[test]
fn gray_packs_column_pair_into_nibbles() {
    let mut d = OledDisplay::new();
    drained(&mut d);
    // Left pixel 0xF, right pixel 0x3.
    d.set_frame_memory_from_callback(|px, _py| if px == 0 { 0xF } else { 0x3 }, 0, 0, 2, 1);
    let tx = drained(&mut d);
    assert_eq!(tx[0], Transaction::Command(vec![0x15, 0x00, 0x00]));
    assert_eq!(tx[1], Transaction::Command(vec![0x75, 0x00, 0x00]));
    assert_eq!(tx[2], Transaction::Data(vec![0xF3]));
    assert_eq!(tx.len(), 3);
}

#[test]
fn gray_masks_extra_nibble_bits() {
    let mut d = OledDisplay::new();
    drained(&mut d);
    // Values above 0xF keep only their low nibble.
    d.set_frame_memory_from_callback(|px, _py| if px == 0 { 0xAB } else { 0xCD }, 0, 0, 2, 1);
    let tx = drained(&mut d);
    assert_eq!(tx[2], Transaction::Data(vec![0xBD]));
}

#[test]
fn gray_rejects_origin_beyond_half_width() {
    let mut d = OledDisplay::new();
    drained(&mut d);
    // The halved origin 65 exceeds half the panel width: nothing is sent.
    d.set_frame_memory_from_callback(|_px, _py| 0xF, 130, 0, 8, 8, );
    assert_eq!(drained(&mut d).len(), 0);
}

#[test]
fn gray_rejects_zero_sized_windows() {
    let mut d = OledDisplay::new();
    drained(&mut d);
    // Width 1 halves to zero.
    d.set_frame_memory_from_callback(|_px, _py| 0xF, 0, 0, 1, 8);
    assert_eq!(drained(&mut d).len(), 0);
    d.set_frame_memory_from_callback(|_px, _py| 0xF, 0, 0, 8, 0);
    assert_eq!(drained(&mut d).len(), 0);
}

#[test]
fn gray_rejects_row_beyond_panel() {
    let mut d = OledDisplay::new();
    drained(&mut d);
    d.set_frame_memory_from_callback(|_px, _py| 0xF, 0, 129, 8, 8);
    assert_eq!(drained(&mut d).len(), 0);
}

#[test]
fn gray_guard_boundary_still_transmits() {
    let mut d = OledDisplay::new();
    drained(&mut d);
    // A halved origin of exactly half the panel width passes the guard: the
    // window registers go out even though no column pair is in range.
    d.set_frame_memory_from_callback(|_px, _py| 0xF, 128, 0, 8, 1);
    let tx = drained(&mut d);
    assert_eq!(tx.len(), 2);
    assert_eq!(tx[0], Transaction::Command(vec![0x15, 64, 63]));
}

#[test]
fn gray_clear_is_idempotent_on_device() {
    let mut d = OledDisplay::new();
    drained(&mut d);
    d.clear_frame_memory(0x7);
    let first = drained(&mut d);
    d.clear_frame_memory(0x7);
    let second = drained(&mut d);
    // Both invocations write the same bytes to the same addresses.
    assert_eq!(first, second);
    // 64 column pairs on 128 rows, after the two window commands.
    assert_eq!(first.len(), 2 + 64 * 128);
    assert_eq!(first[2], Transaction::Data(vec![0x77]));
}

#[test]
fn gray_raw_sends_whole_buffer_without_guard() {
    let mut d = OledDisplay::new();
    drained(&mut d);
    let buffer: Vec<u8> = vec![0x12, 0x34, 0x56, 0x78];
    d.set_frame_memory_from_raw(&buffer, 0, 0, 4, 2);
    let tx = drained(&mut d);
    assert_eq!(tx[0], Transaction::Command(vec![0x15, 0x00, 0x01]));
    assert_eq!(tx[1], Transaction::Command(vec![0x75, 0x00, 0x01]));
    assert_eq!(tx[2], Transaction::Data(vec![0x12, 0x34, 0x56, 0x78]));
    assert_eq!(tx.len(), 3);
}

#[test]
fn gray_display_frame_is_a_no_op() {
    let mut d = OledDisplay::new();
    drained(&mut d);
    d.display_frame();
    assert_eq!(drained(&mut d).len(), 0);
}
