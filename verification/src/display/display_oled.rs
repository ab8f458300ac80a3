//! Grayscale OLED driver: 4-bit, 128 x 128, two pixels per byte, no commit
//! step.
//!
//! The controller addresses two horizontally adjacent pixels per byte, so the
//! window origin and width are halved before clipping.  Each transferred byte
//! packs the left pixel into the high nibble and the right pixel into the low
//! nibble.  Alone among the drivers, this one validates the window before
//! issuing any transaction: a window whose halved origin lies beyond half the
//! panel width, whose origin row lies below the panel, or whose halved width
//! or height is zero is a complete no-op.

use vstd::prelude::*;
use vstd::arithmetic::div_mod::lemma_fundamental_div_mod;
use crate::display::Display;
use crate::transaction::{Transaction, TxQueue, TxView, log_of, bytes1, bytes3, copy_range};

verus! {

pub const OLED_WIDTH: usize = 128;

pub const OLED_HEIGHT: usize = 128;

/// The halved left edge of the window, in column pairs.
pub open spec fn gr_x_start(x: usize) -> int {
    x as int / 2
}

/// The inclusive right edge in column pairs, clipped to the panel.
pub open spec fn gr_x_end(x: usize, image_width: usize) -> int {
    if x as int / 2 + image_width as int / 2 >= OLED_WIDTH / 2 {
        OLED_WIDTH / 2 - 1
    } else {
        x as int / 2 + image_width as int / 2 - 1
    }
}

/// The inclusive bottom edge, clipped to the panel.
pub open spec fn gr_y_end(y: usize, image_height: usize) -> int {
    if y + image_height >= OLED_HEIGHT {
        OLED_HEIGHT - 1
    } else {
        y + image_height - 1
    }
}

/// The guard this driver alone applies before transmitting: the call is a
/// no-op when the halved origin exceeds half the panel width, the origin row
/// exceeds the panel height, or the halved width or the height is zero.
pub open spec fn gray_rejects(x: usize, y: usize, image_width: usize, image_height: usize) -> bool {
    ||| x as int / 2 > OLED_WIDTH / 2
    ||| y > OLED_HEIGHT
    ||| image_width as int / 2 == 0
    ||| image_height == 0
}

/// How many column pairs one row transfers.
pub open spec fn gr_pairs(x: usize, image_width: usize) -> int {
    if gr_x_start(x) <= gr_x_end(x, image_width) {
        gr_x_end(x, image_width) - gr_x_start(x) + 1
    } else {
        0
    }
}

/// How many rows the window covers.
pub open spec fn gr_line_count(y: usize, image_height: usize) -> int {
    if y as int <= gr_y_end(y, image_height) {
        gr_y_end(y, image_height) - y + 1
    } else {
        0
    }
}

/// The windows on which the write arithmetic is defined: rejected windows
/// never reach it, and accepted ones only need the bottom edge to have a
/// machine value.
pub open spec fn gray_call_ok(x: usize, y: usize, image_width: usize, image_height: usize) -> bool {
    gray_rejects(x, y, image_width, image_height) || y + image_height <= usize::MAX
}

/// The coordinates the driver samples: both pixels of every transferred
/// column pair, on every covered row.
pub open spec fn gray_reads(
    x: usize,
    y: usize,
    image_width: usize,
    image_height: usize,
    px: int,
    py: int,
) -> bool {
    &&& !gray_rejects(x, y, image_width, image_height)
    &&& 2 * gr_x_start(x) <= px < 2 * gr_x_start(x) + 2 * gr_pairs(x, image_width)
    &&& y <= py < y + gr_line_count(y, image_height)
}

/// Packs a column pair: left pixel in the high nibble, right pixel in the
/// low nibble.
pub open spec fn gr_pack(left: u8, right: u8) -> int {
    (left as int % 16) * 16 + right as int % 16
}

/// The two 3-byte addressing commands that program the window.
pub open spec fn gr_area_stream(
    x: usize,
    y: usize,
    image_width: usize,
    image_height: usize,
) -> Seq<TxView> {
    seq![
        TxView::Command(
            seq![
                0x15u8,
                (gr_x_start(x) % 256) as u8,
                (gr_x_end(x, image_width) % 256) as u8,
            ],
        ),
        TxView::Command(
            seq![
                0x75u8,
                (y as int % 256) as u8,
                (gr_y_end(y, image_height) % 256) as u8,
            ],
        ),
    ]
}

/// The data bursts of one row, from column pair `g` on: one byte per pair.
pub open spec fn gr_row_data(row: Seq<u8>, g: int, pairs: int) -> Seq<TxView>
    decreases pairs - g,
{
    if g >= pairs {
        Seq::empty()
    } else {
        seq![TxView::Data(seq![gr_pack(row[2 * g], row[2 * g + 1]) as u8])] + gr_row_data(
            row,
            g + 1,
            pairs,
        )
    }
}

/// The rows from index `l` on, each over its sampled row.
pub open spec fn gr_rows_stream(rows: Seq<Seq<u8>>, pairs: int, l: int) -> Seq<TxView>
    decreases rows.len() - l,
{
    if l >= rows.len() {
        Seq::empty()
    } else {
        gr_row_data(rows[l], 0, pairs) + gr_rows_stream(rows, pairs, l + 1)
    }
}

/// The sampled rows: row `l` holds the colours of the consecutive pixels
/// `2 * xs .. 2 * xs + 2 * pairs` on panel row `y + l`.
pub open spec fn gr_sample_rows(
    x: usize,
    y: usize,
    image_width: usize,
    image_height: usize,
    pix: spec_fn(int, int) -> u8,
) -> Seq<Seq<u8>> {
    Seq::new(
        gr_line_count(y, image_height) as nat,
        |l: int|
            Seq::new(
                (2 * gr_pairs(x, image_width)) as nat,
                |r: int| pix(2 * gr_x_start(x) + r, y + l),
            ),
    )
}

/// Everything one frame-memory write appends to the wire: nothing at all for
/// a rejected window.
pub open spec fn gray_stream(
    x: usize,
    y: usize,
    image_width: usize,
    image_height: usize,
    pix: spec_fn(int, int) -> u8,
) -> Seq<TxView> {
    if gray_rejects(x, y, image_width, image_height) {
        Seq::empty()
    } else {
        gr_area_stream(x, y, image_width, image_height) + gr_rows_stream(
            gr_sample_rows(x, y, image_width, image_height, pix),
            gr_pairs(x, image_width),
            0,
        )
    }
}

/// Everything a write from a pre-packed byte buffer appends to the wire: the
/// window registers, then the whole buffer as one burst.  This path applies
/// no guard.
pub open spec fn gray_raw_stream(
    x: usize,
    y: usize,
    image_width: usize,
    image_height: usize,
    bytes: Seq<u8>,
) -> Seq<TxView> {
    gr_area_stream(x, y, image_width, image_height) + seq![TxView::Data(bytes)]
}

/// The fixed start-up block: reset pulse with settle delays, the long
/// configuration command (remap, start line, offset, multiplex ratio,
/// regulator, contrast, phase length, clock divider, pre-charge, VCOMH),
/// a settle delay, then display-on.
pub open spec fn gray_init_stream() -> Seq<TxView> {
    seq![
        TxView::Reset(true),
        TxView::DelayMs(100),
        TxView::Reset(false),
        TxView::DelayMs(100),
        TxView::Reset(true),
        TxView::DelayMs(100),
        TxView::Command(gray_init_block()),
        TxView::DelayMs(200),
        TxView::Command(seq![0xafu8]),
    ]
}

/// The bytes of the long configuration command.
pub open spec fn gray_init_block() -> Seq<u8> {
    seq![
        0xaeu8, 0xa0u8, 0x51u8, 0xa1u8, 0x00u8, 0xa2u8, 0x00u8, 0xa4u8, 0xa8u8, 0x7fu8, 0xabu8,
        0x01u8, 0x81u8, 0x80u8, 0xb1u8, 0x31u8, 0xb3u8, 0xb1u8, 0xb5u8, 0x03u8, 0xb6u8, 0x0du8,
        0xbcu8, 0x07u8, 0xbeu8, 0x07u8, 0xd5u8, 0x02u8, 0xfdu8, 0x12u8, 0xafu8, 0xa0u8, 0x51u8,
    ]
}

/// Cursor positions whose 8 x 8 cell is sampled only inside itself: the
/// origin must sit on a column pair.
pub open spec fn gray_cell_ok(x: usize, y: usize) -> bool {
    &&& x % 2 == 0
    &&& y <= usize::MAX - 8
}

/// The grayscale driver transmits nothing exactly when its guard rejects the
/// window; every accepted window programs the address registers.
pub proof fn lemma_gray_guard(
    x: usize,
    y: usize,
    image_width: usize,
    image_height: usize,
    pix: spec_fn(int, int) -> u8,
)
    ensures
        gray_stream(x, y, image_width, image_height, pix).len() == 0 <==> gray_rejects(
            x,
            y,
            image_width,
            image_height,
        ),
{
    if !gray_rejects(x, y, image_width, image_height) {
        assert(gr_area_stream(x, y, image_width, image_height).len() == 2);
        assert(gray_stream(x, y, image_width, image_height, pix).len() >= 2);
    }
}

proof fn lemma_gr_row_data_snoc(row: Seq<u8>, a: int, g: int)
    requires
        a <= g,
    ensures
        gr_row_data(row, a, g + 1) == gr_row_data(row, a, g) + seq![
            TxView::Data(seq![gr_pack(row[2 * g], row[2 * g + 1]) as u8]),
        ],
    decreases g - a,
{
    if a < g {
        lemma_gr_row_data_snoc(row, a + 1, g);
        assert(gr_row_data(row, a, g + 1) =~= gr_row_data(row, a, g) + seq![
            TxView::Data(seq![gr_pack(row[2 * g], row[2 * g + 1]) as u8]),
        ]);
    } else {
        assert(gr_row_data(row, a + 1, a + 1) =~= Seq::empty());
        assert(gr_row_data(row, a, a) =~= Seq::empty());
        assert(gr_row_data(row, a, a + 1) =~= gr_row_data(row, a, a) + seq![
            TxView::Data(seq![gr_pack(row[2 * a], row[2 * a + 1]) as u8]),
        ]);
    }
}

proof fn lemma_gr_rows_stream_snoc(rows: Seq<Seq<u8>>, row: Seq<u8>, pairs: int, l: int)
    requires
        0 <= l <= rows.len(),
    ensures
        gr_rows_stream(rows.push(row), pairs, l) == gr_rows_stream(rows, pairs, l) + gr_row_data(
            row,
            0,
            pairs,
        ),
    decreases rows.len() - l,
{
    if l < rows.len() {
        lemma_gr_rows_stream_snoc(rows, row, pairs, l + 1);
        assert(rows.push(row)[l] == rows[l]);
        assert(gr_rows_stream(rows.push(row), pairs, l) =~= gr_rows_stream(rows, pairs, l)
            + gr_row_data(row, 0, pairs));
    } else {
        assert(gr_rows_stream(rows.push(row), pairs, l + 1) =~= Seq::empty());
        assert(rows.push(row)[l] == row);
        assert(gr_rows_stream(rows, pairs, l) =~= Seq::empty());
        assert(gr_rows_stream(rows.push(row), pairs, l) =~= gr_rows_stream(rows, pairs, l)
            + gr_row_data(row, 0, pairs));
    }
}

/// Every address an accepted in-bounds window programs or samples stays on
/// the panel.
pub proof fn lemma_gray_window_in_bounds(
    x: usize,
    y: usize,
    image_width: usize,
    image_height: usize,
)
    requires
        gray_call_ok(x, y, image_width, image_height),
        !gray_rejects(x, y, image_width, image_height),
        x + image_width <= OLED_WIDTH,
        y + image_height <= OLED_HEIGHT,
    ensures
        0 <= gr_x_start(x) < OLED_WIDTH / 2,
        0 <= gr_x_end(x, image_width) < OLED_WIDTH / 2,
        y < OLED_HEIGHT,
        y <= gr_y_end(y, image_height) < OLED_HEIGHT,
        forall|px: int, py: int|
            gray_reads(x, y, image_width, image_height, px, py) ==> 0 <= px < OLED_WIDTH && 0 <= py
                < OLED_HEIGHT,
{
    lemma_fundamental_div_mod(x as int, 2);
    lemma_fundamental_div_mod(image_width as int, 2);
}

/// Pins 1-7: 5V, GND, MOSI, SCK, chip select, data/command, reset.
pub struct OledDisplay {
    queue: TxQueue,
}

impl OledDisplay {
    /// Creates the driver and emits the whole start-up sequence.
    pub fn new() -> (d: OledDisplay)
        ensures
            d.wire() == gray_init_stream(),
    {
        let mut d = OledDisplay { queue: TxQueue::new() };
        d.queue.reset(true);
        d.queue.delay_ms(100);
        d.queue.reset(false);
        d.queue.delay_ms(100);
        d.queue.reset(true);
        d.queue.delay_ms(100);
        d.send_command(gray_init_block_bytes());
        d.queue.delay_ms(200);
        d.send_command(bytes1(0xaf));
        proof {
            assert(d.wire() =~= gray_init_stream());
        }
        d
    }

    /// Emits one burst of command bytes.
    fn send_command(&mut self, command_and_args: Vec<u8>)
        ensures
            final(self).wire() == old(self).wire().push(TxView::Command(command_and_args@)),
    {
        self.queue.command(command_and_args);
    }

    /// Emits one burst of data bytes.
    fn send_data(&mut self, data: Vec<u8>)
        ensures
            final(self).wire() == old(self).wire().push(TxView::Data(data@)),
    {
        self.queue.data(data);
    }

    /// Programs the window registers: column-pair window, then row window.
    fn set_memory_area(&mut self, x: usize, y: usize, x_end: usize, y_end: usize)
        ensures
            final(self).wire() == old(self).wire() + seq![
                TxView::Command(
                    seq![0x15u8, (x as int % 256) as u8, (x_end as int % 256) as u8],
                ),
                TxView::Command(
                    seq![0x75u8, (y as int % 256) as u8, (y_end as int % 256) as u8],
                ),
            ],
    {
        self.send_command(bytes3(0x15, (x % 256) as u8, (x_end % 256) as u8));
        self.send_command(bytes3(0x75, (y % 256) as u8, (y_end % 256) as u8));
        proof {
            assert(self.wire() =~= old(self).wire() + seq![
                TxView::Command(
                    seq![0x15u8, (x as int % 256) as u8, (x_end as int % 256) as u8],
                ),
                TxView::Command(
                    seq![0x75u8, (y as int % 256) as u8, (y_end as int % 256) as u8],
                ),
            ]);
        }
    }

    /// Writes the window from a buffer of pre-packed nibble-pair bytes, sent
    /// as one burst.  Unlike the callback path, this applies no guard.
    pub fn set_frame_memory_from_raw(
        &mut self,
        image_buffer: &Vec<u8>,
        x: usize,
        y: usize,
        image_width: usize,
        image_height: usize,
    )
        requires
            x as int / 2 + image_width as int / 2 > 0,
            y + image_height > 0,
            y + image_height <= usize::MAX,
        ensures
            final(self).wire() == old(self).wire() + gray_raw_stream(
                x,
                y,
                image_width,
                image_height,
                image_buffer@,
            ),
    {
        let xs = x / 2;
        let ws = image_width / 2;
        let x_end = if xs + ws >= OLED_WIDTH / 2 {
            OLED_WIDTH / 2 - 1
        } else {
            xs + ws - 1
        };
        let y_end = if y + image_height >= OLED_HEIGHT {
            OLED_HEIGHT - 1
        } else {
            y + image_height - 1
        };
        self.set_memory_area(xs, y, x_end, y_end);
        let bytes = copy_range(image_buffer, 0, image_buffer.len());
        self.send_data(bytes);
        proof {
            assert(image_buffer@.subrange(0, image_buffer@.len() as int) =~= image_buffer@);
            assert(self.wire() =~= old(self).wire() + gray_raw_stream(
                x,
                y,
                image_width,
                image_height,
                image_buffer@,
            ));
        }
    }

    /// Drains the pending transactions for the host to perform.
    pub fn take_transactions(&mut self) -> (out: Vec<Transaction>)
        ensures
            log_of(out@) == old(self).wire(),
            final(self).wire() == Seq::<TxView>::empty(),
    {
        self.queue.take()
    }
}

/// The long configuration command as an executable byte vector.
fn gray_init_block_bytes() -> (v: Vec<u8>)
    ensures
        v@ == gray_init_block(),
{
    let mut v: Vec<u8> = Vec::new();
    v.push(0xae);
    v.push(0xa0);
    v.push(0x51);
    v.push(0xa1);
    v.push(0x00);
    v.push(0xa2);
    v.push(0x00);
    v.push(0xa4);
    v.push(0xa8);
    v.push(0x7f);
    v.push(0xab);
    v.push(0x01);
    v.push(0x81);
    v.push(0x80);
    v.push(0xb1);
    v.push(0x31);
    v.push(0xb3);
    v.push(0xb1);
    v.push(0xb5);
    v.push(0x03);
    v.push(0xb6);
    v.push(0x0d);
    v.push(0xbc);
    v.push(0x07);
    v.push(0xbe);
    v.push(0x07);
    v.push(0xd5);
    v.push(0x02);
    v.push(0xfd);
    v.push(0x12);
    v.push(0xaf);
    v.push(0xa0);
    v.push(0x51);
    proof {
        assert(v@ =~= gray_init_block());
    }
    v
}

impl Display<u8> for OledDisplay {
    closed spec fn wire(&self) -> Seq<TxView> {
        self.queue.log()
    }

    open spec fn spec_width() -> usize {
        OLED_WIDTH
    }

    open spec fn spec_height() -> usize {
        OLED_HEIGHT
    }

    open spec fn spec_pixel_per_byte() -> usize {
        2
    }

    open spec fn spec_light_color() -> u8 {
        0xF
    }

    open spec fn spec_dark_color() -> u8 {
        0x0
    }

    open spec fn call_ok(x: usize, y: usize, image_width: usize, image_height: usize) -> bool {
        gray_call_ok(x, y, image_width, image_height)
    }

    open spec fn reads(
        x: usize,
        y: usize,
        image_width: usize,
        image_height: usize,
        px: int,
        py: int,
    ) -> bool {
        gray_reads(x, y, image_width, image_height, px, py)
    }

    open spec fn stream(
        x: usize,
        y: usize,
        image_width: usize,
        image_height: usize,
        pix: spec_fn(int, int) -> u8,
    ) -> Seq<TxView> {
        gray_stream(x, y, image_width, image_height, pix)
    }

    open spec fn commit_stream() -> Seq<TxView> {
        Seq::empty()
    }

    open spec fn cell_ok(x: usize, y: usize) -> bool {
        gray_cell_ok(x, y)
    }

    proof fn lemma_stream_reads(
        x: usize,
        y: usize,
        image_width: usize,
        image_height: usize,
        p1: spec_fn(int, int) -> u8,
        p2: spec_fn(int, int) -> u8,
    ) {
        if !gray_rejects(x, y, image_width, image_height) {
            let s1 = gr_sample_rows(x, y, image_width, image_height, p1);
            let s2 = gr_sample_rows(x, y, image_width, image_height, p2);
            assert forall|l: int| 0 <= l < s1.len() implies s1[l] == s2[l] by {
                assert forall|r: int| 0 <= r < 2 * gr_pairs(x, image_width) implies #[trigger] p1(
                    2 * gr_x_start(x) + r,
                    y + l,
                ) == p2(2 * gr_x_start(x) + r, y + l) by {
                    assert(Self::reads(
                        x,
                        y,
                        image_width,
                        image_height,
                        2 * gr_x_start(x) + r,
                        y + l,
                    ));
                }
                assert(s1[l] =~= s2[l]);
            }
            assert(s1 =~= s2);
        }
    }

    proof fn lemma_reads_range(
        x: usize,
        y: usize,
        image_width: usize,
        image_height: usize,
        px: int,
        py: int,
    ) {
    }

    proof fn lemma_cell_reads(x: usize, y: usize) {
        assert forall|px: int, py: int|
            Self::reads(x, y, 8, 8, px, py) implies x <= px < x + 8 && y <= py < y + 8 by {
            lemma_fundamental_div_mod(x as int, 2);
            assert(gr_pairs(x, 8) <= 4);
        }
    }

    #[verifier::loop_isolation(false)]
    #[verifier::rlimit(80)]
    fn set_frame_memory_from_callback<F: Fn(usize, usize) -> u8>(
        &mut self,
        cb: F,
        x: usize,
        y: usize,
        image_width: usize,
        image_height: usize,
    ) {
        let xs = x / 2;
        let ws = image_width / 2;
        if xs > OLED_WIDTH / 2 || y > OLED_HEIGHT || ws == 0 || image_height == 0 {
            proof {
                let pix: spec_fn(int, int) -> u8 = |px: int, py: int| 0u8;
                assert(gray_stream(x, y, image_width, image_height, pix) =~= Seq::empty());
                assert(self.wire() =~= old(self).wire() + Self::stream(
                    x,
                    y,
                    image_width,
                    image_height,
                    pix,
                ));
            }
            return ;
        }
        let x_end = if xs + ws >= OLED_WIDTH / 2 {
            OLED_WIDTH / 2 - 1
        } else {
            xs + ws - 1
        };
        let y_end = if y + image_height >= OLED_HEIGHT {
            OLED_HEIGHT - 1
        } else {
            y + image_height - 1
        };
        let pairs: usize = if xs <= x_end {
            x_end - xs + 1
        } else {
            0
        };
        proof {
            assert(xs as int == gr_x_start(x));
            assert(x_end as int == gr_x_end(x, image_width));
            assert(y_end as int == gr_y_end(y, image_height));
            assert(pairs as int == gr_pairs(x, image_width));
        }
        self.set_memory_area(xs, y, x_end, y_end);
        proof {
            assert(self.wire() =~= old(self).wire() + gr_area_stream(
                x,
                y,
                image_width,
                image_height,
            ));
        }
        let ghost mut rows: Seq<Seq<u8>> = Seq::empty();
        let mut line: usize = y;
        while line <= y_end
            invariant
                y <= line,
                line <= y_end + 1 || line == y,
                rows.len() == line - y,
                forall|l: int, r: int|
                    0 <= l < rows.len() && 0 <= r < 2 * (pairs as int) ==> call_ensures(
                        cb,
                        (((2 * xs + r) as usize), ((y + l) as usize)),
                        #[trigger] rows[l][r],
                    ),
                forall|l: int| 0 <= l < rows.len() ==> #[trigger] rows[l].len() == 2 * (
                pairs as int),
                self.wire() == old(self).wire() + gr_area_stream(x, y, image_width, image_height)
                    + gr_rows_stream(rows, pairs as int, 0),
            decreases y_end + 1 - line,
        {
            let mut row: Vec<u8> = Vec::new();
            let cols: usize = pairs * 2;
            let mut r: usize = 0;
            while r < cols
                invariant
                    r <= cols,
                    row.len() == r,
                    forall|k: int|
                        0 <= k < r ==> call_ensures(
                            cb,
                            (((2 * xs + k) as usize), line),
                            #[trigger] row@[k],
                        ),
                decreases cols - r,
            {
                proof {
                    assert(Self::reads(
                        x,
                        y,
                        image_width,
                        image_height,
                        (2 * xs + r) as int,
                        line as int,
                    ));
                    assert(call_requires(cb, (((2 * xs + r) as usize), line)));
                }
                let c = cb(2 * xs + r, line);
                row.push(c);
                r += 1;
            }
            proof {
                assert(gr_row_data(row@, 0, 0) =~= Seq::empty());
            }
            let mut g: usize = 0;
            while g < pairs
                invariant
                    g <= pairs,
                    row.len() == 2 * pairs,
                    self.wire() == old(self).wire() + gr_area_stream(
                        x,
                        y,
                        image_width,
                        image_height,
                    ) + gr_rows_stream(rows, pairs as int, 0) + gr_row_data(row@, 0, g as int),
                decreases pairs - g,
            {
                let left = row[2 * g];
                let right = row[2 * g + 1];
                let byte: u8 = (left % 16) * 16 + right % 16;
                self.send_data(bytes1(byte));
                proof {
                    lemma_gr_row_data_snoc(row@, 0, g as int);
                    assert(self.wire() =~= old(self).wire() + gr_area_stream(
                        x,
                        y,
                        image_width,
                        image_height,
                    ) + gr_rows_stream(rows, pairs as int, 0) + gr_row_data(row@, 0, g + 1));
                }
                g += 1;
            }
            proof {
                lemma_gr_rows_stream_snoc(rows, row@, pairs as int, 0);
                assert(self.wire() =~= old(self).wire() + gr_area_stream(
                    x,
                    y,
                    image_width,
                    image_height,
                ) + gr_rows_stream(rows.push(row@), pairs as int, 0));
                rows = rows.push(row@);
            }
            line += 1;
        }
        proof {
            assert(rows.len() == gr_line_count(y, image_height));
            let pix: spec_fn(int, int) -> u8 = |px: int, py: int|
                rows[py - y][px - 2 * gr_x_start(x)];
            let sampled = gr_sample_rows(x, y, image_width, image_height, pix);
            assert forall|l: int| 0 <= l < rows.len() implies sampled[l] == rows[l] by {
                assert(sampled[l] =~= rows[l]);
            }
            assert(sampled =~= rows);
            assert(self.wire() == old(self).wire() + Self::stream(
                x,
                y,
                image_width,
                image_height,
                pix,
            ));
            assert forall|px: usize, py: usize|
                Self::reads(x, y, image_width, image_height, px as int, py as int)
                    implies call_ensures(cb, (px, py), pix(px as int, py as int)) by {
                let l = py as int - y as int;
                let k = px as int - 2 * gr_x_start(x);
                assert(call_ensures(cb, (((2 * xs + k) as usize), ((y + l) as usize)), rows[l][k]));
            }
        }
    }

    fn display_frame(&mut self) {
        proof {
            assert(self.wire() =~= old(self).wire() + Self::commit_stream());
        }
    }

    fn width(&self) -> usize {
        OLED_WIDTH
    }

    fn height(&self) -> usize {
        OLED_HEIGHT
    }

    fn light_color(&self) -> u8 {
        0xF
    }

    fn dark_color(&self) -> u8 {
        0x0
    }
}

} // verus!
