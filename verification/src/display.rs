//! The generic drawing capability.
//!
//! A [`Display`] owns a transaction queue and translates logical rectangular
//! regions into the addressing commands and packed data bytes of its
//! controller.  The single required primitive is
//! [`Display::set_frame_memory_from_callback`]; filling from a buffer and
//! clearing the panel are derived from it.
//!
//! Every driver describes itself to the verifier with a handful of spec
//! functions: `wire` is the pending transaction log, `stream` is the exact
//! sequence of transactions one frame-memory write appends, `reads` says
//! which absolute pixel coordinates the driver samples, and `call_ok` names
//! the inputs on which a write is well defined.  The per-pixel colour
//! function must be pure: the driver chooses how often and in which order it
//! samples, so the contracts only relate the emitted bytes to *some* value
//! each sampled coordinate can map to.

pub mod display_epaper;
pub mod display_oled;
pub mod display_oled_wide;

pub use display_epaper::EpaperDisplay;
pub use display_oled::OledDisplay;
pub use display_oled_wide::WideOledDisplay;

use vstd::prelude::*;
use crate::transaction::TxView;

verus! {

/// The colour function described by a dense row-major buffer placed at
/// `(x, y)` with row length `width`.
pub open spec fn buffer_color_fn<Color>(
    buffer: Seq<Color>,
    x: int,
    y: int,
    width: int,
) -> spec_fn(int, int) -> Color {
    |px: int, py: int| buffer[(py - y) * width + (px - x)]
}

/// Packs `n` consecutive row entries starting at `base` into an integer,
/// first entry into the most significant bit; a set bit stands for `true`.
pub open spec fn pack_msb_first(row: Seq<bool>, base: int, n: nat) -> int
    decreases n,
{
    if n == 0 {
        0
    } else {
        2 * pack_msb_first(row, base, (n - 1) as nat) + (if row[base + n - 1] {
            1int
        } else {
            0int
        })
    }
}

/// Two to the power `n`.
pub open spec fn two_pow(n: nat) -> int
    decreases n,
{
    if n == 0 {
        1
    } else {
        2 * two_pow((n - 1) as nat)
    }
}

pub proof fn lemma_pack_msb_first_bound(row: Seq<bool>, base: int, n: nat)
    ensures
        0 <= pack_msb_first(row, base, n) < two_pow(n),
    decreases n,
{
    if n > 0 {
        lemma_pack_msb_first_bound(row, base, (n - 1) as nat);
    }
}

proof fn lemma_two_pow_mono(a: nat, c: nat)
    requires
        a <= c,
    ensures
        1 <= two_pow(a) <= two_pow(c),
    decreases c,
{
    if a < c {
        lemma_two_pow_mono(a, (c - 1) as nat);
    } else if a > 0 {
        lemma_two_pow_mono((a - 1) as nat, (c - 1) as nat);
    }
}

proof fn lemma_two_pow_small()
    ensures
        two_pow(7) == 128,
        two_pow(8) == 256,
{
    assert(two_pow(1) == 2 * two_pow(0));
    assert(two_pow(2) == 2 * two_pow(1));
    assert(two_pow(3) == 2 * two_pow(2));
    assert(two_pow(4) == 2 * two_pow(3));
    assert(two_pow(5) == 2 * two_pow(4));
    assert(two_pow(6) == 2 * two_pow(5));
    assert(two_pow(7) == 2 * two_pow(6));
    assert(two_pow(8) == 2 * two_pow(7));
}

/// Packs the eight row entries at `base..base + 8` into one byte, the first
/// entry landing in the most significant bit.
pub fn pack_byte_msb_first(row: &Vec<bool>, base: usize) -> (b: u8)
    requires
        base + 8 <= row.len(),
    ensures
        b as int == pack_msb_first(row@, base as int, 8),
{
    let mut b: u8 = 0;
    let mut j: usize = 0;
    while j < 8
        invariant
            base + 8 <= row.len(),
            j <= 8,
            b as int == pack_msb_first(row@, base as int, j as nat),
            (b as int) < two_pow(j as nat),
        decreases 8 - j,
    {
        proof {
            lemma_two_pow_small();
            lemma_two_pow_mono(j as nat, 7);
        }
        let bit: u8 = if row[base + j] {
            1
        } else {
            0
        };
        b = b * 2 + bit;
        j += 1;
    }
    b
}

/// A buffer write emits the same wire stream as a callback write of the same
/// window whose colour function agrees with the buffer on every sampled
/// coordinate.
pub proof fn lemma_buffer_matches_callback<Color: Copy, D: Display<Color>>(
    x: usize,
    y: usize,
    image_width: usize,
    image_height: usize,
    buffer: Seq<Color>,
    pix: spec_fn(int, int) -> Color,
)
    requires
        forall|px: int, py: int|
            D::reads(x, y, image_width, image_height, px, py) ==> pix(px, py)
                == buffer_color_fn(buffer, x as int, y as int, image_width as int)(px, py),
    ensures
        D::stream(x, y, image_width, image_height, pix) == D::stream(
            x,
            y,
            image_width,
            image_height,
            buffer_color_fn(buffer, x as int, y as int, image_width as int),
        ),
{
    D::lemma_stream_reads(
        x,
        y,
        image_width,
        image_height,
        pix,
        buffer_color_fn(buffer, x as int, y as int, image_width as int),
    );
}

/// Clearing the panel is idempotent on the device.  The contract of
/// [`Display::clear_frame_memory`] gives each invocation's wire log the
/// shape assumed here; whatever the wire held beforehand, both invocations
/// append the very same transactions, writing the same bytes to the same
/// addresses, so the frame memory after the second clear equals the frame
/// memory after the first.
pub proof fn lemma_clear_idempotent<Color: Copy, D: Display<Color>>(
    before_first: Seq<TxView>,
    after_first: Seq<TxView>,
    before_second: Seq<TxView>,
    after_second: Seq<TxView>,
    clear_color: Color,
)
    requires
        after_first == before_first + D::stream(
            0,
            0,
            D::spec_width(),
            D::spec_height(),
            (|px: int, py: int| clear_color),
        ),
        after_second == before_second + D::stream(
            0,
            0,
            D::spec_width(),
            D::spec_height(),
            (|px: int, py: int| clear_color),
        ),
    ensures
        after_first.skip(before_first.len() as int) == after_second.skip(
            before_second.len() as int,
        ),
{
    let appended = D::stream(
        0,
        0,
        D::spec_width(),
        D::spec_height(),
        (|px: int, py: int| clear_color),
    );
    assert(after_first.skip(before_first.len() as int) =~= appended);
    assert(after_second.skip(before_second.len() as int) =~= appended);
}

/// The generic drawing capability of one panel.
///
/// `Color` is the device-native colour: a bit for the two-tone panels, a
/// 4-bit grayscale level for the grayscale panel.
pub trait Display<Color: Copy>: Sized {
    /// The pending transaction log of this display.
    spec fn wire(&self) -> Seq<TxView>;

    /// The width of the display in pixels.
    spec fn spec_width() -> usize;

    /// The height of the display in pixels.
    spec fn spec_height() -> usize;

    /// How many pixels are packed into one transmitted data byte.
    spec fn spec_pixel_per_byte() -> usize;

    /// The light palette endpoint.
    spec fn spec_light_color() -> Color;

    /// The dark palette endpoint.
    spec fn spec_dark_color() -> Color;

    /// The windows on which a frame-memory write is well defined.  Out-of-
    /// range geometry is clamped and aligned, not rejected, so this only
    /// excludes the windows whose end-coordinate arithmetic has no value in
    /// the machine integers.
    spec fn call_ok(x: usize, y: usize, image_width: usize, image_height: usize) -> bool;

    /// Whether writing the given window samples the colour function at the
    /// absolute device coordinate `(px, py)`.
    spec fn reads(
        x: usize,
        y: usize,
        image_width: usize,
        image_height: usize,
        px: int,
        py: int,
    ) -> bool;

    /// The exact transactions that writing the given window appends to the
    /// wire, when the colour function maps each sampled coordinate through
    /// `pix`.
    spec fn stream(
        x: usize,
        y: usize,
        image_width: usize,
        image_height: usize,
        pix: spec_fn(int, int) -> Color,
    ) -> Seq<TxView>;

    /// The transactions a commit appends to the wire.
    spec fn commit_stream() -> Seq<TxView>;

    /// The cursor positions at which an 8 x 8 cell is sampled only inside
    /// itself, so that an 8 x 8 buffer covers every sampled coordinate.
    spec fn cell_ok(x: usize, y: usize) -> bool;

    /// The emitted stream depends on the colour function only at the sampled
    /// coordinates.
    proof fn lemma_stream_reads(
        x: usize,
        y: usize,
        image_width: usize,
        image_height: usize,
        p1: spec_fn(int, int) -> Color,
        p2: spec_fn(int, int) -> Color,
    )
        requires
            forall|px: int, py: int|
                Self::reads(x, y, image_width, image_height, px, py) ==> p1(px, py) == p2(px, py),
        ensures
            Self::stream(x, y, image_width, image_height, p1) == Self::stream(
                x,
                y,
                image_width,
                image_height,
                p2,
            ),
    ;

    /// Every sampled coordinate fits the machine integers.
    proof fn lemma_reads_range(
        x: usize,
        y: usize,
        image_width: usize,
        image_height: usize,
        px: int,
        py: int,
    )
        requires
            Self::reads(x, y, image_width, image_height, px, py),
        ensures
            0 <= px <= usize::MAX,
            0 <= py <= usize::MAX,
    ;

    /// At a cell-aligned cursor, an 8 x 8 write is well defined and samples
    /// only inside the cell.
    proof fn lemma_cell_reads(x: usize, y: usize)
        requires
            Self::cell_ok(x, y),
        ensures
            Self::call_ok(x, y, 8, 8),
            forall|px: int, py: int|
                Self::reads(x, y, 8, 8, px, py) ==> x <= px < x + 8 && y <= py < y + 8,
    ;

    /// Writes the clipped and aligned window, sampling `cb` once per
    /// addressed pixel in a driver-chosen order.  `cb` must be pure; the
    /// emitted stream is the driver's stream over some colour assignment
    /// that `cb` can return at each sampled coordinate.
    fn set_frame_memory_from_callback<F: Fn(usize, usize) -> Color>(
        &mut self,
        cb: F,
        x: usize,
        y: usize,
        image_width: usize,
        image_height: usize,
    )
        requires
            Self::call_ok(x, y, image_width, image_height),
            forall|px: usize, py: usize|
                Self::reads(x, y, image_width, image_height, px as int, py as int)
                    ==> call_requires(cb, (px, py)),
        ensures
            exists|pix: spec_fn(int, int) -> Color|
                {
                    &&& forall|px: usize, py: usize|
                        Self::reads(x, y, image_width, image_height, px as int, py as int)
                            ==> call_ensures(cb, (px, py), pix(px as int, py as int))
                    &&& final(self).wire() == old(self).wire() + Self::stream(
                        x,
                        y,
                        image_width,
                        image_height,
                        pix,
                    )
                },
    ;

    /// Writes the window from a dense row-major buffer of
    /// `image_width x image_height` colours: the pixel at absolute
    /// coordinate `(px, py)` takes `buffer[(py - y) * image_width + (px - x)]`.
    fn set_frame_memory_from_buffer(
        &mut self,
        buffer: &Vec<Color>,
        x: usize,
        y: usize,
        image_width: usize,
        image_height: usize,
    )
        requires
            Self::call_ok(x, y, image_width, image_height),
            forall|px: int, py: int|
                Self::reads(x, y, image_width, image_height, px, py) ==> x <= px && y <= py && (py
                    - y) * image_width + (px - x) < buffer.len(),
        ensures
            final(self).wire() == old(self).wire() + Self::stream(
                x,
                y,
                image_width,
                image_height,
                buffer_color_fn(buffer@, x as int, y as int, image_width as int),
            ),
    {
        let cb = |dx: usize, dy: usize| -> (c: Color)
            requires
                x <= dx,
                y <= dy,
                (dy - y) * image_width + (dx - x) < buffer.len(),
            ensures
                c == buffer@[(dy - y) * image_width + (dx - x)],
            { buffer[(dy - y) * image_width + (dx - x)] };
        proof {
            assert forall|px: usize, py: usize|
                Self::reads(x, y, image_width, image_height, px as int, py as int)
                    implies call_requires(cb, (px, py)) by {
                assert(Self::reads(x, y, image_width, image_height, px as int, py as int));
            }
        }
        self.set_frame_memory_from_callback(cb, x, y, image_width, image_height);
        proof {
            let target = buffer_color_fn(buffer@, x as int, y as int, image_width as int);
            let pix0 = choose|pix: spec_fn(int, int) -> Color|
                {
                    &&& forall|px: usize, py: usize|
                        Self::reads(x, y, image_width, image_height, px as int, py as int)
                            ==> call_ensures(cb, (px, py), pix(px as int, py as int))
                    &&& self.wire() == old(self).wire() + Self::stream(
                        x,
                        y,
                        image_width,
                        image_height,
                        pix,
                    )
                };
            assert forall|px: int, py: int|
                Self::reads(x, y, image_width, image_height, px, py) implies pix0(px, py)
                == target(px, py) by {
                Self::lemma_reads_range(x, y, image_width, image_height, px, py);
                let pu = px as usize;
                let pv = py as usize;
                assert(Self::reads(x, y, image_width, image_height, pu as int, pv as int));
                assert(call_ensures(cb, (pu, pv), pix0(pu as int, pv as int)));
            }
            Self::lemma_stream_reads(x, y, image_width, image_height, pix0, target);
        }
    }

    /// Fills the whole panel with one colour.  Idempotent on the device: the
    /// appended transactions depend on `clear_color` alone, never on the
    /// display's prior state, so two consecutive clears write the same bytes
    /// to the same addresses and leave identical on-device memory.
    fn clear_frame_memory(&mut self, clear_color: Color)
        requires
            Self::call_ok(0, 0, Self::spec_width(), Self::spec_height()),
        ensures
            final(self).wire() == old(self).wire() + Self::stream(
                0,
                0,
                Self::spec_width(),
                Self::spec_height(),
                (|px: int, py: int| clear_color),
            ),
    {
        let w = self.width();
        let h = self.height();
        let cb = |dx: usize, dy: usize| -> (c: Color)
            ensures
                c == clear_color,
            { clear_color };
        self.set_frame_memory_from_callback(cb, 0, 0, w, h);
        proof {
            let target: spec_fn(int, int) -> Color = |px: int, py: int| clear_color;
            let pix0 = choose|pix: spec_fn(int, int) -> Color|
                {
                    &&& forall|px: usize, py: usize|
                        Self::reads(0, 0, w, h, px as int, py as int) ==> call_ensures(
                            cb,
                            (px, py),
                            pix(px as int, py as int),
                        )
                    &&& self.wire() == old(self).wire() + Self::stream(0, 0, w, h, pix)
                };
            assert forall|px: int, py: int|
                Self::reads(0, 0, w, h, px, py) implies pix0(px, py) == target(px, py) by {
                Self::lemma_reads_range(0, 0, w, h, px, py);
                let pu = px as usize;
                let pv = py as usize;
                assert(Self::reads(0, 0, w, h, pu as int, pv as int));
                assert(call_ensures(cb, (pu, pv), pix0(pu as int, pv as int)));
            }
            Self::lemma_stream_reads(0, 0, w, h, pix0, target);
        }
    }

    /// Commits buffered writes to the physically visible image where the
    /// controller distinguishes the two; a no-op elsewhere.
    fn display_frame(&mut self)
        ensures
            final(self).wire() == old(self).wire() + Self::commit_stream(),
    ;

    /// The width of the display in pixels.
    fn width(&self) -> (w: usize)
        ensures
            w == Self::spec_width(),
    ;

    /// The height of the display in pixels.
    fn height(&self) -> (h: usize)
        ensures
            h == Self::spec_height(),
    ;

    /// The light palette endpoint.
    fn light_color(&self) -> (c: Color)
        ensures
            c == Self::spec_light_color(),
    ;

    /// The dark palette endpoint.
    fn dark_color(&self) -> (c: Color)
        ensures
            c == Self::spec_dark_color(),
    ;
}

} // verus!
