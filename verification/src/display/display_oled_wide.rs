//! Wide monochrome OLED driver: 1-bit, 128 x 64, page-addressed, no commit
//! step.
//!
//! Rows are organised in 8-row pages, so the window's origin row and height
//! are divided by eight.  For each page and column the driver packs the eight
//! vertically stacked pixels into one byte by sampling the intra-page offsets
//! from 7 down to 0 and shifting left: bit 0 of the transmitted byte is the
//! topmost of the eight pixels.  This vertical bit order is the controller's
//! native page addressing and differs from the horizontal order of the
//! e-paper driver.

use vstd::prelude::*;
use vstd::arithmetic::div_mod::{lemma_fundamental_div_mod, lemma_fundamental_div_mod_converse};
use vstd::arithmetic::mul::lemma_mul_inequality;
use crate::display::{Display, pack_msb_first, pack_byte_msb_first};
use crate::transaction::{Transaction, TxQueue, TxView, log_of, bytes1, bytes3, copy_range};

verus! {

pub const WIDE_OLED_WIDTH: usize = 128;

pub const WIDE_OLED_HEIGHT: usize = 64;

/// The inclusive right edge, clipped to the panel.
pub open spec fn wd_x_end(x: usize, image_width: usize) -> int {
    if x + image_width >= WIDE_OLED_WIDTH {
        WIDE_OLED_WIDTH - 1
    } else {
        x + image_width - 1
    }
}

/// The first page of the window.
pub open spec fn wd_p_start(y: usize) -> int {
    y as int / 8
}

/// The inclusive last page.  The controller-height comparison is made on
/// page numbers, exactly as the write algorithm performs it.
pub open spec fn wd_p_end(y: usize, image_height: usize) -> int {
    if y as int / 8 + image_height as int / 8 >= WIDE_OLED_HEIGHT {
        WIDE_OLED_HEIGHT - 1
    } else {
        y as int / 8 + image_height as int / 8 - 1
    }
}

/// How many columns one page row transfers.
pub open spec fn wd_cols(x: usize, image_width: usize) -> int {
    if x as int <= wd_x_end(x, image_width) {
        wd_x_end(x, image_width) - x + 1
    } else {
        0
    }
}

/// How many page rows the window covers.
pub open spec fn wd_page_count(y: usize, image_height: usize) -> int {
    if wd_p_start(y) <= wd_p_end(y, image_height) {
        wd_p_end(y, image_height) - wd_p_start(y) + 1
    } else {
        0
    }
}

/// The windows on which the write arithmetic is defined: both the column
/// and the page end-coordinates must have a machine value.
pub open spec fn wide_call_ok(x: usize, y: usize, image_width: usize, image_height: usize) -> bool {
    &&& x + image_width > 0
    &&& x + image_width <= usize::MAX
    &&& y as int / 8 + image_height as int / 8 > 0
}

/// The coordinates the driver samples: all eight rows of every covered page,
/// in every transferred column.
pub open spec fn wide_reads(
    x: usize,
    y: usize,
    image_width: usize,
    image_height: usize,
    px: int,
    py: int,
) -> bool {
    &&& x <= px < x + wd_cols(x, image_width)
    &&& 8 * wd_p_start(y) <= py < 8 * (wd_p_start(y) + wd_page_count(y, image_height))
}

/// The two 3-byte addressing commands: column window, then page window.
pub open spec fn wd_area_stream(
    x: usize,
    y: usize,
    image_width: usize,
    image_height: usize,
) -> Seq<TxView> {
    seq![
        TxView::Command(
            seq![
                0x21u8,
                (x as int % 256) as u8,
                (wd_x_end(x, image_width) % 256) as u8,
            ],
        ),
        TxView::Command(
            seq![
                0x22u8,
                (wd_p_start(y) % 256) as u8,
                (wd_p_end(y, image_height) % 256) as u8,
            ],
        ),
    ]
}

/// The data bursts of one page row, from column `c` on: one byte per column,
/// packed from the eight samples of that column (offset 7 first, so bit 0 is
/// the topmost pixel).
pub open spec fn wd_row_data(row: Seq<bool>, c: int, cols: int) -> Seq<TxView>
    decreases cols - c,
{
    if c >= cols {
        Seq::empty()
    } else {
        seq![TxView::Data(seq![pack_msb_first(row, 8 * c, 8) as u8])] + wd_row_data(
            row,
            c + 1,
            cols,
        )
    }
}

/// The page rows from index `l` on, each over its sampled row.
pub open spec fn wd_rows_stream(rows: Seq<Seq<bool>>, cols: int, l: int) -> Seq<TxView>
    decreases rows.len() - l,
{
    if l >= rows.len() {
        Seq::empty()
    } else {
        wd_row_data(rows[l], 0, cols) + wd_rows_stream(rows, cols, l + 1)
    }
}

/// The sampled page rows: entry `8 * c + j` of row `l` is the pixel of
/// column `x + c` at intra-page offset `7 - j` of page `p0 + l`.
pub open spec fn wd_sample_rows(
    x: usize,
    y: usize,
    image_width: usize,
    image_height: usize,
    pix: spec_fn(int, int) -> bool,
) -> Seq<Seq<bool>> {
    Seq::new(
        wd_page_count(y, image_height) as nat,
        |l: int|
            Seq::new(
                (8 * wd_cols(x, image_width)) as nat,
                |r: int| pix(x + r / 8, 8 * (wd_p_start(y) + l) + 7 - r % 8),
            ),
    )
}

/// Everything one frame-memory write appends to the wire.
pub open spec fn wide_stream(
    x: usize,
    y: usize,
    image_width: usize,
    image_height: usize,
    pix: spec_fn(int, int) -> bool,
) -> Seq<TxView> {
    wd_area_stream(x, y, image_width, image_height) + wd_rows_stream(
        wd_sample_rows(x, y, image_width, image_height, pix),
        wd_cols(x, image_width),
        0,
    )
}

/// The page rows of a write from a pre-packed byte buffer, from row `l` on:
/// each page row transfers `image_width` buffer bytes starting at byte
/// `l * image_width / 8`.
pub open spec fn wd_raw_rows_stream(bytes: Seq<u8>, l: int, pages: int, image_width: int) -> Seq<
    TxView,
>
    decreases pages - l,
{
    if l >= pages {
        Seq::empty()
    } else {
        seq![
            TxView::Data(bytes.subrange(l * image_width / 8, l * image_width / 8 + image_width)),
        ] + wd_raw_rows_stream(bytes, l + 1, pages, image_width)
    }
}

/// Everything a write from a pre-packed byte buffer appends to the wire.
pub open spec fn wide_raw_stream(
    x: usize,
    y: usize,
    image_width: usize,
    image_height: usize,
    bytes: Seq<u8>,
) -> Seq<TxView> {
    wd_area_stream(x, y, image_width, image_height) + wd_raw_rows_stream(
        bytes,
        0,
        wd_page_count(y, image_height),
        image_width as int,
    )
}

/// The fixed start-up sequence: reset pulse with short settle delays, then
/// horizontal addressing mode, the two mirror settings and display-on as one
/// command burst.
pub open spec fn wide_init_stream() -> Seq<TxView> {
    seq![
        TxView::Reset(true),
        TxView::DelayMs(10),
        TxView::Reset(false),
        TxView::DelayMs(10),
        TxView::Reset(true),
        TxView::Command(seq![0x20u8, 0x00u8, 0xa1u8, 0xc8u8, 0xafu8]),
    ]
}

/// Cursor positions whose 8 x 8 cell is sampled only inside itself: the
/// origin row must sit on a page boundary.
pub open spec fn wide_cell_ok(x: usize, y: usize) -> bool {
    &&& y % 8 == 0
    &&& x <= usize::MAX - 8
}

/// A frame-memory write always programs the column and page windows,
/// whatever the geometry: this driver does not validate its window before
/// transmitting.
pub proof fn lemma_wide_always_transmits(
    x: usize,
    y: usize,
    image_width: usize,
    image_height: usize,
    pix: spec_fn(int, int) -> bool,
)
    ensures
        wide_stream(x, y, image_width, image_height, pix).len() >= 2,
{
    assert(wd_area_stream(x, y, image_width, image_height).len() == 2);
}

/// Every address an in-bounds window programs or samples stays on the panel.
pub proof fn lemma_wide_window_in_bounds(
    x: usize,
    y: usize,
    image_width: usize,
    image_height: usize,
)
    requires
        wide_call_ok(x, y, image_width, image_height),
        1 <= image_width,
        1 <= image_height,
        x + image_width <= WIDE_OLED_WIDTH,
        y + image_height <= WIDE_OLED_HEIGHT,
    ensures
        0 <= wd_x_end(x, image_width) < WIDE_OLED_WIDTH,
        0 <= wd_p_start(y) < WIDE_OLED_HEIGHT / 8,
        0 <= wd_p_end(y, image_height) < WIDE_OLED_HEIGHT / 8,
        forall|px: int, py: int|
            wide_reads(x, y, image_width, image_height, px, py) ==> 0 <= px < WIDE_OLED_WIDTH && 0
                <= py < WIDE_OLED_HEIGHT,
{
    lemma_fundamental_div_mod(y as int, 8);
    lemma_fundamental_div_mod(image_height as int, 8);
    assert(wd_p_start(y) <= 7);
    assert(y as int / 8 + image_height as int / 8 <= 8) by {
        assert(8 * (y as int / 8) + 8 * (image_height as int / 8) <= y + image_height);
    }
    assert forall|px: int, py: int|
        wide_reads(x, y, image_width, image_height, px, py) implies 0 <= px < WIDE_OLED_WIDTH && 0
        <= py < WIDE_OLED_HEIGHT by {
        assert(wd_p_start(y) + wd_page_count(y, image_height) <= 8);
    }
}

proof fn lemma_wd_row_data_snoc(row: Seq<bool>, a: int, c: int)
    requires
        a <= c,
    ensures
        wd_row_data(row, a, c + 1) == wd_row_data(row, a, c) + seq![
            TxView::Data(seq![pack_msb_first(row, 8 * c, 8) as u8]),
        ],
    decreases c - a,
{
    if a < c {
        lemma_wd_row_data_snoc(row, a + 1, c);
        assert(wd_row_data(row, a, c + 1) =~= wd_row_data(row, a, c) + seq![
            TxView::Data(seq![pack_msb_first(row, 8 * c, 8) as u8]),
        ]);
    } else {
        assert(wd_row_data(row, a + 1, a + 1) =~= Seq::empty());
        assert(wd_row_data(row, a, a) =~= Seq::empty());
        assert(wd_row_data(row, a, a + 1) =~= wd_row_data(row, a, a) + seq![
            TxView::Data(seq![pack_msb_first(row, 8 * a, 8) as u8]),
        ]);
    }
}

proof fn lemma_wd_rows_stream_snoc(rows: Seq<Seq<bool>>, row: Seq<bool>, cols: int, l: int)
    requires
        0 <= l <= rows.len(),
    ensures
        wd_rows_stream(rows.push(row), cols, l) == wd_rows_stream(rows, cols, l) + wd_row_data(
            row,
            0,
            cols,
        ),
    decreases rows.len() - l,
{
    if l < rows.len() {
        lemma_wd_rows_stream_snoc(rows, row, cols, l + 1);
        assert(rows.push(row)[l] == rows[l]);
        assert(wd_rows_stream(rows.push(row), cols, l) =~= wd_rows_stream(rows, cols, l)
            + wd_row_data(row, 0, cols));
    } else {
        assert(wd_rows_stream(rows.push(row), cols, l + 1) =~= Seq::empty());
        assert(rows.push(row)[l] == row);
        assert(wd_rows_stream(rows, cols, l) =~= Seq::empty());
        assert(wd_rows_stream(rows.push(row), cols, l) =~= wd_rows_stream(rows, cols, l)
            + wd_row_data(row, 0, cols));
    }
}

proof fn lemma_wd_raw_rows_snoc(bytes: Seq<u8>, a: int, k: int, image_width: int)
    requires
        a <= k,
    ensures
        wd_raw_rows_stream(bytes, a, k + 1, image_width) == wd_raw_rows_stream(
            bytes,
            a,
            k,
            image_width,
        ) + seq![
            TxView::Data(bytes.subrange(k * image_width / 8, k * image_width / 8 + image_width)),
        ],
    decreases k - a,
{
    if a < k {
        lemma_wd_raw_rows_snoc(bytes, a + 1, k, image_width);
        assert(wd_raw_rows_stream(bytes, a, k + 1, image_width) =~= wd_raw_rows_stream(
            bytes,
            a,
            k,
            image_width,
        ) + seq![
            TxView::Data(bytes.subrange(k * image_width / 8, k * image_width / 8 + image_width)),
        ]);
    } else {
        assert(wd_raw_rows_stream(bytes, a + 1, a + 1, image_width) =~= Seq::empty());
        assert(wd_raw_rows_stream(bytes, a, a, image_width) =~= Seq::empty());
        assert(wd_raw_rows_stream(bytes, a, a + 1, image_width) =~= wd_raw_rows_stream(
            bytes,
            a,
            a,
            image_width,
        ) + seq![
            TxView::Data(bytes.subrange(a * image_width / 8, a * image_width / 8 + image_width)),
        ]);
    }
}

/// Pins 1-7: 5V, GND, MOSI, SCK, chip select, data/command, reset.
pub struct WideOledDisplay {
    queue: TxQueue,
}

impl WideOledDisplay {
    /// Creates the driver and emits the whole start-up sequence.
    pub fn new() -> (d: WideOledDisplay)
        ensures
            d.wire() == wide_init_stream(),
    {
        let mut d = WideOledDisplay { queue: TxQueue::new() };
        d.queue.reset(true);
        d.queue.delay_ms(10);
        d.queue.reset(false);
        d.queue.delay_ms(10);
        d.queue.reset(true);
        let mut block: Vec<u8> = Vec::new();
        block.push(0x20);
        block.push(0x00);
        block.push(0xa1);
        block.push(0xc8);
        block.push(0xaf);
        proof {
            assert(block@ =~= seq![0x20u8, 0x00u8, 0xa1u8, 0xc8u8, 0xafu8]);
        }
        d.send_command(block);
        proof {
            assert(d.wire() =~= wide_init_stream());
        }
        d
    }

    /// Emits one burst of command bytes.
    fn send_command(&mut self, commands: Vec<u8>)
        ensures
            final(self).wire() == old(self).wire().push(TxView::Command(commands@)),
    {
        self.queue.command(commands);
    }

    /// Emits one burst of data bytes.
    fn send_data(&mut self, data: Vec<u8>)
        ensures
            final(self).wire() == old(self).wire().push(TxView::Data(data@)),
    {
        self.queue.data(data);
    }

    /// Writes the window from a buffer of pre-packed page bytes: page row `l`
    /// transfers the `image_width` buffer bytes starting at byte
    /// `l * image_width / 8`.
    #[verifier::loop_isolation(false)]
    #[verifier::rlimit(80)]
    pub fn set_frame_memory_from_raw(
        &mut self,
        image_buffer: &Vec<u8>,
        x: usize,
        y: usize,
        image_width: usize,
        image_height: usize,
    )
        requires
            wide_call_ok(x, y, image_width, image_height),
            (wd_page_count(y, image_height) - 1) * image_width <= usize::MAX,
            forall|l: int|
                0 <= l < wd_page_count(y, image_height) ==> #[trigger] (l * image_width) / 8
                    + image_width <= image_buffer.len(),
        ensures
            final(self).wire() == old(self).wire() + wide_raw_stream(
                x,
                y,
                image_width,
                image_height,
                image_buffer@,
            ),
    {
        let p0 = y / 8;
        let hp = image_height / 8;
        let x_end = if x + image_width >= WIDE_OLED_WIDTH {
            WIDE_OLED_WIDTH - 1
        } else {
            x + image_width - 1
        };
        let y_end = if p0 + hp >= WIDE_OLED_HEIGHT {
            WIDE_OLED_HEIGHT - 1
        } else {
            p0 + hp - 1
        };
        proof {
            assert(x_end as int == wd_x_end(x, image_width));
            assert(p0 as int == wd_p_start(y));
            assert(y_end as int == wd_p_end(y, image_height));
        }
        self.send_command(bytes3(0x21, (x % 256) as u8, (x_end % 256) as u8));
        self.send_command(bytes3(0x22, (p0 % 256) as u8, (y_end % 256) as u8));
        proof {
            assert(self.wire() =~= old(self).wire() + wd_area_stream(
                x,
                y,
                image_width,
                image_height,
            ));
            assert(wd_raw_rows_stream(image_buffer@, 0, 0, image_width as int) =~= Seq::empty());
        }
        let mut line: usize = p0;
        while line <= y_end
            invariant
                p0 <= line,
                line <= y_end + 1 || line == p0,
                self.wire() == old(self).wire() + wd_area_stream(x, y, image_width, image_height)
                    + wd_raw_rows_stream(image_buffer@, 0, line - p0, image_width as int),
            decreases y_end + 1 - line,
        {
            proof {
                lemma_mul_inequality(
                    line - p0,
                    wd_page_count(y, image_height) - 1,
                    image_width as int,
                );
                assert(((line - p0) as int * image_width) / 8 + image_width
                    <= image_buffer.len());
            }
            let start = (line - p0) * image_width / 8;
            let seg = copy_range(image_buffer, start, start + image_width);
            self.send_data(seg);
            proof {
                lemma_wd_raw_rows_snoc(image_buffer@, 0, line - p0, image_width as int);
                assert(self.wire() =~= old(self).wire() + wd_area_stream(
                    x,
                    y,
                    image_width,
                    image_height,
                ) + wd_raw_rows_stream(image_buffer@, 0, line - p0 + 1, image_width as int));
            }
            line += 1;
        }
        proof {
            assert(line - p0 == wd_page_count(y, image_height));
        }
    }

    /// Drains the pending transactions for the host to perform.
    pub fn take_transactions(&mut self) -> (out: Vec<Transaction>)
        ensures
            log_of(out@) == old(self).wire(),
            final(self).wire() == Seq::<TxView>::empty(),
    {
        self.queue.take()
    }
}

impl Display<bool> for WideOledDisplay {
    closed spec fn wire(&self) -> Seq<TxView> {
        self.queue.log()
    }

    open spec fn spec_width() -> usize {
        WIDE_OLED_WIDTH
    }

    open spec fn spec_height() -> usize {
        WIDE_OLED_HEIGHT
    }

    open spec fn spec_pixel_per_byte() -> usize {
        8
    }

    open spec fn spec_light_color() -> bool {
        true
    }

    open spec fn spec_dark_color() -> bool {
        false
    }

    open spec fn call_ok(x: usize, y: usize, image_width: usize, image_height: usize) -> bool {
        wide_call_ok(x, y, image_width, image_height)
    }

    open spec fn reads(
        x: usize,
        y: usize,
        image_width: usize,
        image_height: usize,
        px: int,
        py: int,
    ) -> bool {
        wide_reads(x, y, image_width, image_height, px, py)
    }

    open spec fn stream(
        x: usize,
        y: usize,
        image_width: usize,
        image_height: usize,
        pix: spec_fn(int, int) -> bool,
    ) -> Seq<TxView> {
        wide_stream(x, y, image_width, image_height, pix)
    }

    open spec fn commit_stream() -> Seq<TxView> {
        Seq::empty()
    }

    open spec fn cell_ok(x: usize, y: usize) -> bool {
        wide_cell_ok(x, y)
    }

    proof fn lemma_stream_reads(
        x: usize,
        y: usize,
        image_width: usize,
        image_height: usize,
        p1: spec_fn(int, int) -> bool,
        p2: spec_fn(int, int) -> bool,
    ) {
        let s1 = wd_sample_rows(x, y, image_width, image_height, p1);
        let s2 = wd_sample_rows(x, y, image_width, image_height, p2);
        assert forall|l: int| 0 <= l < s1.len() implies s1[l] == s2[l] by {
            assert forall|r: int| 0 <= r < 8 * wd_cols(x, image_width) implies #[trigger] p1(
                x + r / 8,
                8 * (wd_p_start(y) + l) + 7 - r % 8,
            ) == p2(x + r / 8, 8 * (wd_p_start(y) + l) + 7 - r % 8) by {
                lemma_fundamental_div_mod(r, 8);
                assert(Self::reads(
                    x,
                    y,
                    image_width,
                    image_height,
                    x + r / 8,
                    8 * (wd_p_start(y) + l) + 7 - r % 8,
                ));
            }
            assert(s1[l] =~= s2[l]);
        }
        assert(s1 =~= s2);
    }

    proof fn lemma_reads_range(
        x: usize,
        y: usize,
        image_width: usize,
        image_height: usize,
        px: int,
        py: int,
    ) {
    }

    proof fn lemma_cell_reads(x: usize, y: usize) {
        lemma_fundamental_div_mod(y as int, 8);
        assert forall|px: int, py: int|
            Self::reads(x, y, 8, 8, px, py) implies x <= px < x + 8 && y <= py < y + 8 by {
            assert(wd_cols(x, 8) <= 8);
            assert(wd_page_count(y, 8) <= 1);
        }
    }

    #[verifier::loop_isolation(false)]
    #[verifier::rlimit(100)]
    fn set_frame_memory_from_callback<F: Fn(usize, usize) -> bool>(
        &mut self,
        cb: F,
        x: usize,
        y: usize,
        image_width: usize,
        image_height: usize,
    ) {
        let p0 = y / 8;
        let hp = image_height / 8;
        let x_end = if x + image_width >= WIDE_OLED_WIDTH {
            WIDE_OLED_WIDTH - 1
        } else {
            x + image_width - 1
        };
        let y_end = if p0 + hp >= WIDE_OLED_HEIGHT {
            WIDE_OLED_HEIGHT - 1
        } else {
            p0 + hp - 1
        };
        let cols: usize = if x <= x_end {
            x_end - x + 1
        } else {
            0
        };
        proof {
            assert(x_end as int == wd_x_end(x, image_width));
            assert(p0 as int == wd_p_start(y));
            assert(y_end as int == wd_p_end(y, image_height));
            assert(cols as int == wd_cols(x, image_width));
        }
        self.send_command(bytes3(0x21, (x % 256) as u8, (x_end % 256) as u8));
        self.send_command(bytes3(0x22, (p0 % 256) as u8, (y_end % 256) as u8));
        proof {
            assert(self.wire() =~= old(self).wire() + wd_area_stream(
                x,
                y,
                image_width,
                image_height,
            ));
        }
        let ghost mut rows: Seq<Seq<bool>> = Seq::empty();
        let mut line: usize = p0;
        while line <= y_end
            invariant
                p0 <= line,
                line <= y_end + 1 || line == p0,
                rows.len() == line - p0,
                forall|l: int, k: int|
                    0 <= l < rows.len() && 0 <= k < 8 * (cols as int) ==> call_ensures(
                        cb,
                        (((x + k / 8) as usize), ((8 * (p0 + l) + 7 - k % 8) as usize)),
                        #[trigger] rows[l][k],
                    ),
                forall|l: int| 0 <= l < rows.len() ==> #[trigger] rows[l].len() == 8 * (
                cols as int),
                self.wire() == old(self).wire() + wd_area_stream(x, y, image_width, image_height)
                    + wd_rows_stream(rows, cols as int, 0),
            decreases y_end + 1 - line,
        {
            let mut row: Vec<bool> = Vec::new();
            let samples: usize = cols * 8;
            let mut r: usize = 0;
            while r < samples
                invariant
                    r <= samples,
                    row.len() == r,
                    forall|k: int|
                        0 <= k < r ==> call_ensures(
                            cb,
                            (((x + k / 8) as usize), ((8 * (line as int) + 7 - k % 8) as usize)),
                            #[trigger] row@[k],
                        ),
                decreases samples - r,
            {
                proof {
                    lemma_fundamental_div_mod(r as int, 8);
                    assert(Self::reads(
                        x,
                        y,
                        image_width,
                        image_height,
                        (x + r / 8) as int,
                        (8 * line + 7 - r % 8) as int,
                    ));
                    assert(call_requires(
                        cb,
                        (((x + r / 8) as usize), ((8 * line + 7 - r % 8) as usize)),
                    ));
                }
                let c = cb(x + r / 8, 8 * line + 7 - r % 8);
                row.push(c);
                r += 1;
            }
            proof {
                assert(wd_row_data(row@, 0, 0) =~= Seq::empty());
            }
            let mut g: usize = 0;
            let mut base: usize = 0;
            while g < cols
                invariant
                    g <= cols,
                    base == 8 * g,
                    row.len() == 8 * cols,
                    self.wire() == old(self).wire() + wd_area_stream(
                        x,
                        y,
                        image_width,
                        image_height,
                    ) + wd_rows_stream(rows, cols as int, 0) + wd_row_data(row@, 0, g as int),
                decreases cols - g,
            {
                let b: u8 = pack_byte_msb_first(&row, base);
                self.send_data(bytes1(b));
                proof {
                    lemma_wd_row_data_snoc(row@, 0, g as int);
                    assert(self.wire() =~= old(self).wire() + wd_area_stream(
                        x,
                        y,
                        image_width,
                        image_height,
                    ) + wd_rows_stream(rows, cols as int, 0) + wd_row_data(row@, 0, g + 1));
                }
                g += 1;
                base += 8;
            }
            proof {
                lemma_wd_rows_stream_snoc(rows, row@, cols as int, 0);
                assert(self.wire() =~= old(self).wire() + wd_area_stream(
                    x,
                    y,
                    image_width,
                    image_height,
                ) + wd_rows_stream(rows.push(row@), cols as int, 0));
                rows = rows.push(row@);
            }
            line += 1;
        }
        proof {
            assert(rows.len() == wd_page_count(y, image_height));
            let pix: spec_fn(int, int) -> bool = |px: int, py: int|
                rows[py / 8 - wd_p_start(y)][8 * (px - x) + 7 - py % 8];
            let sampled = wd_sample_rows(x, y, image_width, image_height, pix);
            assert forall|l: int| 0 <= l < rows.len() implies sampled[l] == rows[l] by {
                assert forall|r: int| 0 <= r < 8 * (cols as int) implies sampled[l][r] == rows[l][r]
                    by {
                    lemma_fundamental_div_mod(r, 8);
                    let py = 8 * (wd_p_start(y) + l) + 7 - r % 8;
                    lemma_fundamental_div_mod_converse(py, 8, wd_p_start(y) + l, 7 - r % 8);
                    assert(pix(x + r / 8, py) == rows[l][8 * (r / 8) + r % 8]);
                }
                assert(sampled[l] =~= rows[l]);
            }
            assert(sampled =~= rows);
            assert(self.wire() == old(self).wire() + Self::stream(
                x,
                y,
                image_width,
                image_height,
                pix,
            ));
            assert forall|px: usize, py: usize|
                Self::reads(x, y, image_width, image_height, px as int, py as int)
                    implies call_ensures(cb, (px, py), pix(px as int, py as int)) by {
                lemma_fundamental_div_mod(py as int, 8);
                let l = py as int / 8 - wd_p_start(y);
                let k = 8 * (px as int - x) + 7 - (py as int) % 8;
                lemma_fundamental_div_mod_converse(k, 8, px as int - x, 7 - (py as int) % 8);
                assert(call_ensures(
                    cb,
                    (((x + k / 8) as usize), ((8 * (p0 + l) + 7 - k % 8) as usize)),
                    rows[l][k],
                ));
                assert((x + k / 8) as usize == px);
                assert((8 * (p0 + l) + 7 - k % 8) as usize == py);
            }
        }
    }

    fn display_frame(&mut self) {
        proof {
            assert(self.wire() =~= old(self).wire() + Self::commit_stream());
        }
    }

    fn width(&self) -> usize {
        WIDE_OLED_WIDTH
    }

    fn height(&self) -> usize {
        WIDE_OLED_HEIGHT
    }

    fn light_color(&self) -> bool {
        true
    }

    fn dark_color(&self) -> bool {
        false
    }
}

} // verus!
