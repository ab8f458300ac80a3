//! E-paper panel driver: 1-bit, 200 x 200, byte-column addressed, with an
//! explicit commit step and busy-line synchronisation.
//!
//! The controller addresses columns in groups of eight pixels, so the window
//! origin and width keep only the whole 8-pixel columns of their low byte.
//! Each scan line is written by positioning the internal RAM pointer (which
//! itself waits on the busy line), issuing the write-RAM opcode and sending
//! one byte per 8-pixel group, most significant pixel first; a set bit is the
//! dark colour.  Writes only reach the visible image through
//! [`Display::display_frame`], which triggers the update sequence and blocks
//! on the busy line.

use vstd::prelude::*;
use vstd::arithmetic::div_mod::{lemma_div_is_ordered, lemma_fundamental_div_mod, lemma_mod_multiples_vanish};
use vstd::arithmetic::mul::lemma_mul_inequality;
use crate::display::{Display, pack_msb_first, pack_byte_msb_first};
use crate::transaction::{Transaction, TxQueue, TxView, log_of, bytes1, bytes2, bytes3, bytes4, copy_range};

verus! {

pub const EPAPER_WIDTH: usize = 200;

pub const EPAPER_HEIGHT: usize = 200;

/// Keeps the whole multiples of eight of the low byte of `v`: the byte-column
/// alignment the controller imposes on window origins and widths.
pub open spec fn align8(v: int) -> int {
    v % 256 / 8 * 8
}

/// The aligned left edge of the window.
pub open spec fn ep_x_start(x: usize) -> int {
    align8(x as int)
}

/// The inclusive right edge: aligned origin plus aligned width, clipped to
/// the panel.
pub open spec fn ep_x_end(x: usize, image_width: usize) -> int {
    if align8(x as int) + align8(image_width as int) >= EPAPER_WIDTH {
        EPAPER_WIDTH - 1
    } else {
        align8(x as int) + align8(image_width as int) - 1
    }
}

/// The inclusive bottom edge, clipped to the panel.
pub open spec fn ep_y_end(y: usize, image_height: usize) -> int {
    if y + image_height >= EPAPER_HEIGHT {
        EPAPER_HEIGHT - 1
    } else {
        y + image_height - 1
    }
}

/// How many 8-pixel groups one scan line transfers.
pub open spec fn ep_groups(x: usize, image_width: usize) -> int {
    if ep_x_start(x) <= ep_x_end(x, image_width) {
        (ep_x_end(x, image_width) - ep_x_start(x)) / 8 + 1
    } else {
        0
    }
}

/// How many scan lines the window covers.
pub open spec fn ep_line_count(y: usize, image_height: usize) -> int {
    if y as int <= ep_y_end(y, image_height) {
        ep_y_end(y, image_height) - y + 1
    } else {
        0
    }
}

/// The windows on which the write arithmetic is defined: the aligned window
/// must not collapse to nothing at the left edge, and the bottom edge must
/// have a machine value.
pub open spec fn epaper_call_ok(
    x: usize,
    y: usize,
    image_width: usize,
    image_height: usize,
) -> bool {
    &&& align8(x as int) + align8(image_width as int) > 0
    &&& y + image_height > 0
    &&& y + image_height <= usize::MAX
}

/// The coordinates the driver samples: every pixel of each transferred
/// group, on every covered scan line.
pub open spec fn epaper_reads(
    x: usize,
    y: usize,
    image_width: usize,
    image_height: usize,
    px: int,
    py: int,
) -> bool {
    &&& ep_x_start(x) <= px < ep_x_start(x) + 8 * ep_groups(x, image_width)
    &&& y <= py < y + ep_line_count(y, image_height)
}

/// The two paired register writes that program the addressable window.
pub open spec fn ep_area_stream(
    x: usize,
    y: usize,
    image_width: usize,
    image_height: usize,
) -> Seq<TxView> {
    let xs = ep_x_start(x);
    let xe = ep_x_end(x, image_width);
    let ye = ep_y_end(y, image_height);
    seq![
        TxView::Command(seq![0x44u8]),
        TxView::Data(seq![(xs / 8) as u8, (xe / 8) as u8]),
        TxView::Command(seq![0x45u8]),
        TxView::Data(
            seq![
                (y as int % 256) as u8,
                (y as int / 256 % 256) as u8,
                (ye % 256) as u8,
                (ye / 256 % 256) as u8,
            ],
        ),
    ]
}

/// Positioning the internal RAM pointer at `(xs, line)`; the controller
/// blocks on the busy line afterwards.
pub open spec fn ep_pointer_stream(xs: int, line: int) -> Seq<TxView> {
    seq![
        TxView::Command(seq![0x4Eu8]),
        TxView::Data(seq![(xs / 8) as u8]),
        TxView::Command(seq![0x4Fu8]),
        TxView::Data(seq![(line % 256) as u8, (line / 256 % 256) as u8]),
        TxView::WaitIdle,
    ]
}

/// The data bursts of one scan line, from group `g` on: one byte per group,
/// packed most significant pixel first from the sampled row.
pub open spec fn ep_row_data(row: Seq<bool>, g: int, groups: int) -> Seq<TxView>
    decreases groups - g,
{
    if g >= groups {
        Seq::empty()
    } else {
        seq![TxView::Data(seq![pack_msb_first(row, 8 * g, 8) as u8])] + ep_row_data(
            row,
            g + 1,
            groups,
        )
    }
}

/// One whole scan line: pointer, write-RAM opcode, packed data.
pub open spec fn ep_line_stream(xs: int, line: int, row: Seq<bool>, groups: int) -> Seq<TxView> {
    ep_pointer_stream(xs, line) + seq![TxView::Command(seq![0x24u8])] + ep_row_data(row, 0, groups)
}

/// The scan lines from index `l` on, each over its sampled row.
pub open spec fn ep_rows_stream(
    rows: Seq<Seq<bool>>,
    xs: int,
    y: int,
    groups: int,
    l: int,
) -> Seq<TxView>
    decreases rows.len() - l,
{
    if l >= rows.len() {
        Seq::empty()
    } else {
        ep_line_stream(xs, y + l, rows[l], groups) + ep_rows_stream(rows, xs, y, groups, l + 1)
    }
}

/// The sampled rows of the window: line `l` holds the colours of the
/// consecutive pixels `xs .. xs + 8 * groups` on scan line `y + l`.
pub open spec fn ep_sample_rows(
    x: usize,
    y: usize,
    image_width: usize,
    image_height: usize,
    pix: spec_fn(int, int) -> bool,
) -> Seq<Seq<bool>> {
    Seq::new(
        ep_line_count(y, image_height) as nat,
        |l: int|
            Seq::new(
                (8 * ep_groups(x, image_width)) as nat,
                |r: int| pix(ep_x_start(x) + r, y + l),
            ),
    )
}

/// Everything one frame-memory write appends to the wire.
pub open spec fn epaper_stream(
    x: usize,
    y: usize,
    image_width: usize,
    image_height: usize,
    pix: spec_fn(int, int) -> bool,
) -> Seq<TxView> {
    ep_area_stream(x, y, image_width, image_height) + ep_rows_stream(
        ep_sample_rows(x, y, image_width, image_height, pix),
        ep_x_start(x),
        y as int,
        ep_groups(x, image_width),
        0,
    )
}

/// The commit sequence: select the display-update mode, activate it, block
/// until the busy line clears.
pub open spec fn epaper_commit_stream() -> Seq<TxView> {
    seq![
        TxView::Command(seq![0x22u8]),
        TxView::Data(seq![0xC7u8]),
        TxView::Command(seq![0x20u8]),
        TxView::WaitIdle,
    ]
}

/// The fixed start-up sequence: reset pulse with settle delays, then the
/// ordered register writes (driver output control, data-entry mode, RAM
/// window, border, update control, temperature sensor, update sequence
/// select), ending in an activation that blocks on the busy line.
pub open spec fn epaper_init_stream() -> Seq<TxView> {
    seq![
        TxView::DelayMs(10),
        TxView::Reset(false),
        TxView::DelayMs(200),
        TxView::Reset(true),
        TxView::DelayMs(200),
        TxView::Command(seq![0x01u8]),
        TxView::Data(seq![0xC7u8, 0x00u8, 0x00u8]),
        TxView::Command(seq![0x11u8]),
        TxView::Data(seq![0x03u8]),
        TxView::Command(seq![0x44u8]),
        TxView::Data(seq![0x00u8, 0x18u8]),
        TxView::Command(seq![0x45u8]),
        TxView::Data(seq![0xC7u8, 0x00u8, 0x00u8, 0x00u8]),
        TxView::Command(seq![0x3Cu8]),
        TxView::Data(seq![0x01u8]),
        TxView::Command(seq![0x21u8]),
        TxView::Data(seq![0x00u8]),
        TxView::Command(seq![0x18u8]),
        TxView::Data(seq![0x80u8]),
        TxView::Command(seq![0x22u8]),
        TxView::Data(seq![0xB1u8]),
        TxView::Command(seq![0x20u8]),
        TxView::WaitIdle,
    ]
}

/// Cursor positions whose 8 x 8 cell is sampled only inside itself: the
/// origin must be byte-column aligned and keep its value under the low-byte
/// alignment.
pub open spec fn epaper_cell_ok(x: usize, y: usize) -> bool {
    &&& x % 8 == 0
    &&& x < 256
    &&& y <= usize::MAX - 8
}

proof fn lemma_ep_row_data_snoc(row: Seq<bool>, a: int, g: int)
    requires
        a <= g,
    ensures
        ep_row_data(row, a, g + 1) == ep_row_data(row, a, g) + seq![
            TxView::Data(seq![pack_msb_first(row, 8 * g, 8) as u8]),
        ],
    decreases g - a,
{
    if a < g {
        lemma_ep_row_data_snoc(row, a + 1, g);
        assert(ep_row_data(row, a, g + 1) =~= ep_row_data(row, a, g) + seq![
            TxView::Data(seq![pack_msb_first(row, 8 * g, 8) as u8]),
        ]);
    } else {
        assert(ep_row_data(row, a + 1, a + 1) =~= Seq::empty());
        assert(ep_row_data(row, a, a + 1) =~= ep_row_data(row, a, a) + seq![
            TxView::Data(seq![pack_msb_first(row, 8 * a, 8) as u8]),
        ]);
    }
}

proof fn lemma_ep_rows_stream_snoc(
    rows: Seq<Seq<bool>>,
    row: Seq<bool>,
    xs: int,
    y: int,
    groups: int,
    l: int,
)
    requires
        0 <= l <= rows.len(),
    ensures
        ep_rows_stream(rows.push(row), xs, y, groups, l) == ep_rows_stream(rows, xs, y, groups, l)
            + ep_line_stream(xs, y + rows.len(), row, groups),
    decreases rows.len() - l,
{
    if l < rows.len() {
        lemma_ep_rows_stream_snoc(rows, row, xs, y, groups, l + 1);
        assert(rows.push(row)[l] == rows[l]);
        assert(ep_rows_stream(rows.push(row), xs, y, groups, l) =~= ep_rows_stream(
            rows,
            xs,
            y,
            groups,
            l,
        ) + ep_line_stream(xs, y + rows.len(), row, groups));
    } else {
        assert(ep_rows_stream(rows.push(row), xs, y, groups, l + 1) =~= Seq::empty());
        assert(rows.push(row)[l] == row);
        assert(ep_rows_stream(rows, xs, y, groups, l) =~= Seq::empty());
        assert(ep_rows_stream(rows.push(row), xs, y, groups, l) =~= ep_rows_stream(
            rows,
            xs,
            y,
            groups,
            l,
        ) + ep_line_stream(xs, y + l, row, groups));
    }
}

/// The scan lines of a write from a pre-packed byte buffer, from line `l`
/// on: each line transfers its `width_bytes` consecutive buffer bytes.
pub open spec fn ep_raw_rows_stream(
    bytes: Seq<u8>,
    xs: int,
    y: int,
    width_bytes: int,
    l: int,
    lines: int,
) -> Seq<TxView>
    decreases lines - l,
{
    if l >= lines {
        Seq::empty()
    } else {
        ep_pointer_stream(xs, y + l) + seq![
            TxView::Command(seq![0x24u8]),
            TxView::Data(bytes.subrange(l * width_bytes, (l + 1) * width_bytes)),
        ] + ep_raw_rows_stream(bytes, xs, y, width_bytes, l + 1, lines)
    }
}

/// Everything a write from a pre-packed byte buffer appends to the wire.
pub open spec fn epaper_raw_stream(
    x: usize,
    y: usize,
    image_width: usize,
    image_height: usize,
    bytes: Seq<u8>,
) -> Seq<TxView> {
    ep_area_stream(x, y, image_width, image_height) + ep_raw_rows_stream(
        bytes,
        ep_x_start(x),
        y as int,
        align8(image_width as int) / 8,
        0,
        ep_line_count(y, image_height),
    )
}

proof fn lemma_ep_raw_rows_snoc(bytes: Seq<u8>, xs: int, y: int, width_bytes: int, a: int, k: int)
    requires
        a <= k,
    ensures
        ep_raw_rows_stream(bytes, xs, y, width_bytes, a, k + 1) == ep_raw_rows_stream(
            bytes,
            xs,
            y,
            width_bytes,
            a,
            k,
        ) + (ep_pointer_stream(xs, y + k) + seq![
            TxView::Command(seq![0x24u8]),
            TxView::Data(bytes.subrange(k * width_bytes, (k + 1) * width_bytes)),
        ]),
    decreases k - a,
{
    if a < k {
        lemma_ep_raw_rows_snoc(bytes, xs, y, width_bytes, a + 1, k);
        assert(ep_raw_rows_stream(bytes, xs, y, width_bytes, a, k + 1) =~= ep_raw_rows_stream(
            bytes,
            xs,
            y,
            width_bytes,
            a,
            k,
        ) + (ep_pointer_stream(xs, y + k) + seq![
            TxView::Command(seq![0x24u8]),
            TxView::Data(bytes.subrange(k * width_bytes, (k + 1) * width_bytes)),
        ]));
    } else {
        assert(ep_raw_rows_stream(bytes, xs, y, width_bytes, a + 1, a + 1) =~= Seq::empty());
        assert(ep_raw_rows_stream(bytes, xs, y, width_bytes, a, a) =~= Seq::empty());
        assert(ep_raw_rows_stream(bytes, xs, y, width_bytes, a, a + 1) =~= ep_raw_rows_stream(
            bytes,
            xs,
            y,
            width_bytes,
            a,
            a,
        ) + (ep_pointer_stream(xs, y + a) + seq![
            TxView::Command(seq![0x24u8]),
            TxView::Data(bytes.subrange(a * width_bytes, (a + 1) * width_bytes)),
        ]));
    }
}

/// Every address an in-bounds window programs or samples stays on the panel:
/// the window registers hold panel coordinates and every sampled pixel lies
/// in `[0, WIDTH) x [0, HEIGHT)`.
pub proof fn lemma_epaper_window_in_bounds(
    x: usize,
    y: usize,
    image_width: usize,
    image_height: usize,
)
    requires
        epaper_call_ok(x, y, image_width, image_height),
        1 <= image_width,
        1 <= image_height,
        x + image_width <= EPAPER_WIDTH,
        y + image_height <= EPAPER_HEIGHT,
    ensures
        0 <= ep_x_start(x) <= x,
        ep_x_start(x) < EPAPER_WIDTH,
        0 <= ep_x_end(x, image_width) < EPAPER_WIDTH,
        y < EPAPER_HEIGHT,
        y <= ep_y_end(y, image_height) < EPAPER_HEIGHT,
        forall|px: int, py: int|
            epaper_reads(x, y, image_width, image_height, px, py) ==> 0 <= px < EPAPER_WIDTH && 0
                <= py < EPAPER_HEIGHT,
{
    lemma_fundamental_div_mod(x as int, 8);
    lemma_fundamental_div_mod(image_width as int, 8);
    let xs = ep_x_start(x);
    let xe = ep_x_end(x, image_width);
    let ws = align8(image_width as int);
    assert(xs == x as int / 8 * 8);
    assert(ws == image_width as int / 8 * 8);
    assert forall|px: int, py: int|
        epaper_reads(x, y, image_width, image_height, px, py) implies 0 <= px < EPAPER_WIDTH && 0
        <= py < EPAPER_HEIGHT by {
        assert(xs <= xe);
        let d = xe - xs;
        lemma_fundamental_div_mod(d, 8);
        assert(d % 8 == 7) by {
            if xs + ws >= EPAPER_WIDTH {
                lemma_mod_multiples_vanish(
                    -(x as int / 8),
                    199,
                    8,
                );
            } else {
                lemma_mod_multiples_vanish(
                    x as int / 8 + image_width as int / 8 - 1,
                    7,
                    8,
                );
            }
        }
        assert(8 * ep_groups(x, image_width) == d + 1);
    }
}

/// A frame-memory write always programs the address window and emits its
/// scan lines, whatever the geometry: this driver does not validate its
/// window before transmitting.
pub proof fn lemma_epaper_always_transmits(
    x: usize,
    y: usize,
    image_width: usize,
    image_height: usize,
    pix: spec_fn(int, int) -> bool,
)
    ensures
        epaper_stream(x, y, image_width, image_height, pix).len() >= 4,
{
    assert(ep_area_stream(x, y, image_width, image_height).len() == 4);
}

/// ```plain
/// Pin 1 = Power 5V
/// Pin 2 = GND
/// Pin 3 = MOSI
/// Pin 4 = SCK
/// Pin 5 = Chip Select
/// Pin 6 = Data Command
/// Pin 7 = Reset
/// Pin 8 = Busy
/// ```
pub struct EpaperDisplay {
    queue: TxQueue,
}

impl EpaperDisplay {
    /// Creates the driver and emits the whole start-up sequence.
    pub fn new() -> (d: EpaperDisplay)
        ensures
            d.wire() == epaper_init_stream(),
    {
        let mut d = EpaperDisplay { queue: TxQueue::new() };
        d.queue.delay_ms(10);
        d.queue.reset(false);
        d.queue.delay_ms(200);
        d.queue.reset(true);
        d.queue.delay_ms(200);
        d.send_command(0x01);
        d.send_data(bytes3(0xC7, 0x00, 0x00));
        d.send_command(0x11);
        d.send_data(bytes1(0x03));
        d.send_command(0x44);
        d.send_data(bytes2(0x00, 0x18));
        d.send_command(0x45);
        d.send_data(bytes4(0xC7, 0x00, 0x00, 0x00));
        d.send_command(0x3C);
        d.send_data(bytes1(0x01));
        d.send_command(0x21);
        d.send_data(bytes1(0x00));
        d.send_command(0x18);
        d.send_data(bytes1(0x80));
        d.send_command(0x22);
        d.send_data(bytes1(0xB1));
        d.send_command(0x20);
        d.block_until_idle();
        proof {
            assert(d.wire() =~= epaper_init_stream());
        }
        d
    }

    /// Emits one command byte.
    fn send_command(&mut self, command: u8)
        ensures
            final(self).wire() == old(self).wire().push(TxView::Command(seq![command])),
    {
        self.queue.command(bytes1(command));
    }

    /// Emits one burst of data bytes.
    fn send_data(&mut self, data: Vec<u8>)
        ensures
            final(self).wire() == old(self).wire().push(TxView::Data(data@)),
    {
        self.queue.data(data);
    }

    /// Emits a wait on the busy line.
    fn block_until_idle(&mut self)
        ensures
            final(self).wire() == old(self).wire().push(TxView::WaitIdle),
    {
        self.queue.wait_idle();
    }

    /// Programs the addressable window registers.
    fn set_memory_area(&mut self, x: usize, y: usize, x_end: usize, y_end: usize)
        ensures
            final(self).wire() == old(self).wire() + seq![
                TxView::Command(seq![0x44u8]),
                TxView::Data(seq![(x as int / 8 % 256) as u8, (x_end as int / 8 % 256) as u8]),
                TxView::Command(seq![0x45u8]),
                TxView::Data(
                    seq![
                        (y as int % 256) as u8,
                        (y as int / 256 % 256) as u8,
                        (y_end as int % 256) as u8,
                        (y_end as int / 256 % 256) as u8,
                    ],
                ),
            ],
    {
        self.send_command(0x44);
        self.send_data(bytes2((x / 8 % 256) as u8, (x_end / 8 % 256) as u8));
        self.send_command(0x45);
        self.send_data(
            bytes4(
                (y % 256) as u8,
                (y / 256 % 256) as u8,
                (y_end % 256) as u8,
                (y_end / 256 % 256) as u8,
            ),
        );
        proof {
            assert(self.wire() =~= old(self).wire() + seq![
                TxView::Command(seq![0x44u8]),
                TxView::Data(seq![(x as int / 8 % 256) as u8, (x_end as int / 8 % 256) as u8]),
                TxView::Command(seq![0x45u8]),
                TxView::Data(
                    seq![
                        (y as int % 256) as u8,
                        (y as int / 256 % 256) as u8,
                        (y_end as int % 256) as u8,
                        (y_end as int / 256 % 256) as u8,
                    ],
                ),
            ]);
        }
    }

    /// Positions the internal RAM write pointer; the controller blocks on the
    /// busy line.
    fn set_memory_pointer(&mut self, x: usize, y: usize)
        ensures
            final(self).wire() == old(self).wire() + seq![
                TxView::Command(seq![0x4Eu8]),
                TxView::Data(seq![(x as int / 8 % 256) as u8]),
                TxView::Command(seq![0x4Fu8]),
                TxView::Data(seq![(y as int % 256) as u8, (y as int / 256 % 256) as u8]),
                TxView::WaitIdle,
            ],
    {
        self.send_command(0x4E);
        self.send_data(bytes1((x / 8 % 256) as u8));
        self.send_command(0x4F);
        self.send_data(bytes2((y % 256) as u8, (y / 256 % 256) as u8));
        self.block_until_idle();
        proof {
            assert(self.wire() =~= old(self).wire() + seq![
                TxView::Command(seq![0x4Eu8]),
                TxView::Data(seq![(x as int / 8 % 256) as u8]),
                TxView::Command(seq![0x4Fu8]),
                TxView::Data(seq![(y as int % 256) as u8, (y as int / 256 % 256) as u8]),
                TxView::WaitIdle,
            ]);
        }
    }

    /// Writes the clipped and aligned window from a buffer of pre-packed
    /// bytes: each scan line takes its aligned-width worth of consecutive
    /// buffer bytes, one bit per pixel, most significant pixel first.
    #[verifier::loop_isolation(false)]
    #[verifier::rlimit(80)]
    pub fn set_frame_memory_from_raw(
        &mut self,
        image_buffer: &Vec<u8>,
        x: usize,
        y: usize,
        image_width: usize,
        image_height: usize,
    )
        requires
            epaper_call_ok(x, y, image_width, image_height),
            ep_line_count(y, image_height) * (align8(image_width as int) / 8)
                <= image_buffer.len(),
        ensures
            final(self).wire() == old(self).wire() + epaper_raw_stream(
                x,
                y,
                image_width,
                image_height,
                image_buffer@,
            ),
    {
        let xs = x % 256 / 8 * 8;
        let ws = image_width % 256 / 8 * 8;
        let width_bytes = ws / 8;
        let x_end = if xs + ws >= EPAPER_WIDTH {
            EPAPER_WIDTH - 1
        } else {
            xs + ws - 1
        };
        let y_end = if y + image_height >= EPAPER_HEIGHT {
            EPAPER_HEIGHT - 1
        } else {
            y + image_height - 1
        };
        proof {
            assert(xs as int == ep_x_start(x));
            assert(width_bytes as int == align8(image_width as int) / 8);
            assert(y_end as int == ep_y_end(y, image_height));
        }
        self.set_memory_area(xs, y, x_end, y_end);
        proof {
            assert(self.wire() =~= old(self).wire() + ep_area_stream(
                x,
                y,
                image_width,
                image_height,
            ));
            assert(ep_raw_rows_stream(
                image_buffer@,
                xs as int,
                y as int,
                width_bytes as int,
                0,
                0,
            ) =~= Seq::empty());
        }
        let mut line: usize = y;
        while line <= y_end
            invariant
                y <= line,
                line <= y_end + 1 || line == y,
                self.wire() == old(self).wire() + ep_area_stream(x, y, image_width, image_height)
                    + ep_raw_rows_stream(
                    image_buffer@,
                    xs as int,
                    y as int,
                    width_bytes as int,
                    0,
                    line - y,
                ),
            decreases y_end + 1 - line,
        {
            proof {
                lemma_mul_inequality(
                    line - y + 1,
                    ep_line_count(y, image_height),
                    width_bytes as int,
                );
                lemma_mul_inequality(
                    line - y,
                    line - y + 1,
                    width_bytes as int,
                );
            }
            self.set_memory_pointer(xs, line);
            self.send_command(0x24);
            let seg = copy_range(image_buffer, (line - y) * width_bytes, (line - y + 1)
                * width_bytes);
            self.send_data(seg);
            proof {
                lemma_ep_raw_rows_snoc(
                    image_buffer@,
                    xs as int,
                    y as int,
                    width_bytes as int,
                    0,
                    line - y,
                );
                assert(self.wire() =~= old(self).wire() + ep_area_stream(
                    x,
                    y,
                    image_width,
                    image_height,
                ) + ep_raw_rows_stream(
                    image_buffer@,
                    xs as int,
                    y as int,
                    width_bytes as int,
                    0,
                    line - y + 1,
                ));
            }
            line += 1;
        }
        proof {
            assert(line - y == ep_line_count(y, image_height));
        }
    }

    /// Drains the pending transactions for the host to perform.
    pub fn take_transactions(&mut self) -> (out: Vec<Transaction>)
        ensures
            log_of(out@) == old(self).wire(),
            final(self).wire() == Seq::<TxView>::empty(),
    {
        self.queue.take()
    }
}

impl Display<bool> for EpaperDisplay {
    closed spec fn wire(&self) -> Seq<TxView> {
        self.queue.log()
    }

    open spec fn spec_width() -> usize {
        EPAPER_WIDTH
    }

    open spec fn spec_height() -> usize {
        EPAPER_HEIGHT
    }

    open spec fn spec_pixel_per_byte() -> usize {
        8
    }

    open spec fn spec_light_color() -> bool {
        false
    }

    open spec fn spec_dark_color() -> bool {
        true
    }

    open spec fn call_ok(x: usize, y: usize, image_width: usize, image_height: usize) -> bool {
        epaper_call_ok(x, y, image_width, image_height)
    }

    open spec fn reads(
        x: usize,
        y: usize,
        image_width: usize,
        image_height: usize,
        px: int,
        py: int,
    ) -> bool {
        epaper_reads(x, y, image_width, image_height, px, py)
    }

    open spec fn stream(
        x: usize,
        y: usize,
        image_width: usize,
        image_height: usize,
        pix: spec_fn(int, int) -> bool,
    ) -> Seq<TxView> {
        epaper_stream(x, y, image_width, image_height, pix)
    }

    open spec fn commit_stream() -> Seq<TxView> {
        epaper_commit_stream()
    }

    open spec fn cell_ok(x: usize, y: usize) -> bool {
        epaper_cell_ok(x, y)
    }

    proof fn lemma_stream_reads(
        x: usize,
        y: usize,
        image_width: usize,
        image_height: usize,
        p1: spec_fn(int, int) -> bool,
        p2: spec_fn(int, int) -> bool,
    ) {
        let s1 = ep_sample_rows(x, y, image_width, image_height, p1);
        let s2 = ep_sample_rows(x, y, image_width, image_height, p2);
        assert forall|l: int| 0 <= l < s1.len() implies s1[l] == s2[l] by {
            assert forall|r: int| 0 <= r < 8 * ep_groups(x, image_width) implies #[trigger] p1(
                ep_x_start(x) + r,
                y + l,
            ) == p2(ep_x_start(x) + r, y + l) by {
                assert(Self::reads(x, y, image_width, image_height, ep_x_start(x) + r, y + l));
            }
            assert(s1[l] =~= s2[l]);
        }
        assert(s1 =~= s2);
    }

    proof fn lemma_reads_range(
        x: usize,
        y: usize,
        image_width: usize,
        image_height: usize,
        px: int,
        py: int,
    ) {
        lemma_div_is_ordered(ep_x_end(x, image_width) - ep_x_start(x), 200, 8);
    }

    proof fn lemma_cell_reads(x: usize, y: usize) {
        assert(align8(x as int) == x as int);
        assert(align8(8) == 8);
        assert forall|px: int, py: int|
            Self::reads(x, y, 8, 8, px, py) implies x <= px < x + 8 && y <= py < y + 8 by {
            assert(ep_groups(x, 8) <= 1);
        }
    }

    #[verifier::loop_isolation(false)]
    #[verifier::rlimit(100)]
    fn set_frame_memory_from_callback<F: Fn(usize, usize) -> bool>(
        &mut self,
        cb: F,
        x: usize,
        y: usize,
        image_width: usize,
        image_height: usize,
    ) {
        let xs = x % 256 / 8 * 8;
        let ws = image_width % 256 / 8 * 8;
        let x_end = if xs + ws >= EPAPER_WIDTH {
            EPAPER_WIDTH - 1
        } else {
            xs + ws - 1
        };
        let y_end = if y + image_height >= EPAPER_HEIGHT {
            EPAPER_HEIGHT - 1
        } else {
            y + image_height - 1
        };
        let groups: usize = if xs <= x_end {
            (x_end - xs) / 8 + 1
        } else {
            0
        };
        proof {
            assert(xs as int == ep_x_start(x));
            assert(x_end as int == ep_x_end(x, image_width));
            assert(y_end as int == ep_y_end(y, image_height));
            assert(groups as int == ep_groups(x, image_width));
            assert(groups <= 25) by {
                if xs <= x_end {
                    lemma_div_is_ordered(x_end - xs, 199, 8);
                }
            }
        }
        self.set_memory_area(xs, y, x_end, y_end);
        proof {
            assert(self.wire() =~= old(self).wire() + ep_area_stream(
                x,
                y,
                image_width,
                image_height,
            ));
        }
        let ghost mut rows: Seq<Seq<bool>> = Seq::empty();
        let mut line: usize = y;
        while line <= y_end
            invariant
                y <= line,
                line <= y_end + 1 || line == y,
                rows.len() == line - y,
                forall|l: int, r: int|
                    0 <= l < rows.len() && 0 <= r < 8 * (groups as int) ==> call_ensures(
                        cb,
                        (((xs + r) as usize), ((y + l) as usize)),
                        #[trigger] rows[l][r],
                    ),
                forall|l: int| 0 <= l < rows.len() ==> #[trigger] rows[l].len() == 8 * (
                groups as int),
                self.wire() == old(self).wire() + ep_area_stream(x, y, image_width, image_height)
                    + ep_rows_stream(rows, xs as int, y as int, groups as int, 0),
            decreases y_end + 1 - line,
        {
            let mut row: Vec<bool> = Vec::new();
            let cols: usize = groups * 8;
            let mut r: usize = 0;
            while r < cols
                invariant
                    r <= cols,
                    row.len() == r,
                    forall|k: int|
                        0 <= k < r ==> call_ensures(
                            cb,
                            (((xs + k) as usize), line),
                            #[trigger] row@[k],
                        ),
                decreases cols - r,
            {
                proof {
                    assert(Self::reads(
                        x,
                        y,
                        image_width,
                        image_height,
                        (xs + r) as int,
                        line as int,
                    ));
                    assert(call_requires(cb, (((xs + r) as usize), line)));
                }
                let c = cb(xs + r, line);
                row.push(c);
                r += 1;
            }
            self.set_memory_pointer(xs, line);
            self.send_command(0x24);
            proof {
                assert(ep_row_data(row@, 0, 0) =~= Seq::empty());
                assert(self.wire() =~= old(self).wire() + ep_area_stream(
                    x,
                    y,
                    image_width,
                    image_height,
                ) + ep_rows_stream(rows, xs as int, y as int, groups as int, 0) + ep_pointer_stream(
                    xs as int,
                    line as int,
                ) + seq![TxView::Command(seq![0x24u8])] + ep_row_data(row@, 0, 0));
            }
            let mut g: usize = 0;
            let mut base: usize = 0;
            while g < groups
                invariant
                    g <= groups,
                    base == 8 * g,
                    row.len() == 8 * groups,
                    self.wire() == old(self).wire() + ep_area_stream(
                        x,
                        y,
                        image_width,
                        image_height,
                    ) + ep_rows_stream(rows, xs as int, y as int, groups as int, 0)
                        + ep_pointer_stream(xs as int, line as int) + seq![
                        TxView::Command(seq![0x24u8]),
                    ] + ep_row_data(row@, 0, g as int),
                decreases groups - g,
            {
                let b: u8 = pack_byte_msb_first(&row, base);
                self.send_data(bytes1(b));
                proof {
                    lemma_ep_row_data_snoc(row@, 0, g as int);
                    assert(self.wire() =~= old(self).wire() + ep_area_stream(
                        x,
                        y,
                        image_width,
                        image_height,
                    ) + ep_rows_stream(rows, xs as int, y as int, groups as int, 0)
                        + ep_pointer_stream(xs as int, line as int) + seq![
                        TxView::Command(seq![0x24u8]),
                    ] + ep_row_data(row@, 0, g + 1));
                }
                g += 1;
                base += 8;
            }
            proof {
                lemma_ep_rows_stream_snoc(
                    rows,
                    row@,
                    xs as int,
                    y as int,
                    groups as int,
                    0,
                );
                assert(self.wire() =~= old(self).wire() + ep_area_stream(
                    x,
                    y,
                    image_width,
                    image_height,
                ) + ep_rows_stream(rows.push(row@), xs as int, y as int, groups as int, 0));
                rows = rows.push(row@);
            }
            line += 1;
        }
        proof {
            assert(rows.len() == ep_line_count(y, image_height));
            let pix: spec_fn(int, int) -> bool = |px: int, py: int|
                rows[py - y][px - ep_x_start(x)];
            let sampled = ep_sample_rows(x, y, image_width, image_height, pix);
            assert forall|l: int| 0 <= l < rows.len() implies sampled[l] == rows[l] by {
                assert(sampled[l] =~= rows[l]);
            }
            assert(sampled =~= rows);
            assert(self.wire() == old(self).wire() + Self::stream(
                x,
                y,
                image_width,
                image_height,
                pix,
            ));
            assert forall|px: usize, py: usize|
                Self::reads(x, y, image_width, image_height, px as int, py as int)
                    implies call_ensures(cb, (px, py), pix(px as int, py as int)) by {
                let l = py as int - y as int;
                let k = px as int - ep_x_start(x);
                assert(call_ensures(cb, (((xs + k) as usize), ((y + l) as usize)), rows[l][k]));
            }
        }
    }

    fn display_frame(&mut self) {
        self.send_command(0x22);
        self.send_data(bytes1(0xC7));
        self.send_command(0x20);
        self.block_until_idle();
        proof {
            assert(self.wire() =~= old(self).wire() + epaper_commit_stream());
        }
    }

    fn width(&self) -> usize {
        EPAPER_WIDTH
    }

    fn height(&self) -> usize {
        EPAPER_HEIGHT
    }

    fn light_color(&self) -> bool {
        false
    }

    fn dark_color(&self) -> bool {
        true
    }
}

} // verus!
