//! Fixed-width text rendering on any [`Display`].
//!
//! Each byte of an ASCII string is drawn as an 8 x 8 glyph taken from an
//! immutable bitmap table, expanded into the device's native colours (set
//! bit: foreground, clear bit: background) and written through the display's
//! buffer primitive; the cursor then advances eight pixels to the right.  No
//! wrapping and no kerning: what happens at unaligned cursor positions or
//! beyond the panel is whatever the driver's own clipping does, so the
//! accepted cursor positions are exactly the driver's cell-aligned ones.

use vstd::prelude::*;
use vstd::string::StrSliceExecFns;
use crate::display::{Display, buffer_color_fn};
use crate::transaction::TxView;

verus! {

/// An immutable glyph table: eight row bytes for each of the 256 byte
/// values, 2048 bytes in all.  Bit `k` of a row byte is the pixel at column
/// `k` of that row, least significant bit leftmost.
pub struct GlyphFont {
    rows: Vec<u8>,
}

impl View for GlyphFont {
    type V = Seq<u8>;

    closed spec fn view(&self) -> Seq<u8> {
        self.rows@
    }
}

impl GlyphFont {
    /// A well-formed table holds eight row bytes per byte value.
    pub open spec fn wf(&self) -> bool {
        self@.len() == 2048
    }

    /// Accepts exactly a 2048-byte table.
    pub fn new(rows: Vec<u8>) -> (result: Option<GlyphFont>)
        ensures
            result is Some <==> rows@.len() == 2048,
            result matches Some(f) ==> f@ == rows@ && f.wf(),
    {
        if rows.len() == 2048 {
            Some(GlyphFont { rows })
        } else {
            None
        }
    }

    /// Row byte `r` of the glyph for byte value `ch`.
    pub fn row_byte(&self, ch: u8, r: usize) -> (b: u8)
        requires
            self.wf(),
            r < 8,
        ensures
            b == self@[ch as int * 8 + r as int],
    {
        self.rows[ch as usize * 8 + r]
    }
}

/// The value of the column mask `1 << col` for a column inside a glyph.
pub open spec fn glyph_mask(col: int) -> int {
    if col == 0 {
        1
    } else if col == 1 {
        2
    } else if col == 2 {
        4
    } else if col == 3 {
        8
    } else if col == 4 {
        16
    } else if col == 5 {
        32
    } else if col == 6 {
        64
    } else {
        128
    }
}

/// Whether the glyph for `ch` has its pixel set at `(row, col)`.
pub open spec fn glyph_bit(font: Seq<u8>, ch: u8, row: int, col: int) -> bool {
    font[ch as int * 8 + row] as int / glyph_mask(col) % 2 == 1
}

/// The 8 x 8 cell of the glyph for `ch`, row-major, expanded to colours.
pub open spec fn glyph_cell<Color>(font: Seq<u8>, ch: u8, color: Color, bg_color: Color) -> Seq<
    Color,
> {
    Seq::new(
        64,
        |i: int|
            if glyph_bit(font, ch, i / 8, i % 8) {
                color
            } else {
                bg_color
            },
    )
}

/// The wire stream of rendering `chars` from cursor `x`: one buffer write
/// of each glyph cell, each eight pixels further right.
pub open spec fn text_stream<Color: Copy, D: Display<Color>>(
    font: Seq<u8>,
    chars: Seq<char>,
    x: int,
    y: usize,
    color: Color,
    bg_color: Color,
) -> Seq<TxView>
    decreases chars.len(),
{
    if chars.len() == 0 {
        Seq::empty()
    } else {
        text_stream::<Color, D>(font, chars.drop_last(), x, y, color, bg_color) + D::stream(
            ((x + 8 * (chars.len() - 1)) as usize),
            y,
            8,
            8,
            buffer_color_fn(
                glyph_cell(font, chars.last() as u8, color, bg_color),
                x + 8 * (chars.len() - 1),
                y as int,
                8,
            ),
        )
    }
}

/// Text rendering is deterministic.  The contract of
/// [`Writer::write_string`] gives each invocation's wire log the shape
/// assumed here; rendering the same text at the same cursor with the same
/// font and colours appends the very same wire stream both times, whatever
/// the display held beforehand.
pub proof fn lemma_write_string_deterministic<Color: Copy, D: Display<Color>>(
    before_first: Seq<TxView>,
    after_first: Seq<TxView>,
    before_second: Seq<TxView>,
    after_second: Seq<TxView>,
    font: Seq<u8>,
    chars: Seq<char>,
    x: usize,
    y: usize,
    color: Color,
    bg_color: Color,
)
    requires
        after_first == before_first + text_stream::<Color, D>(
            font,
            chars,
            x as int,
            y,
            color,
            bg_color,
        ),
        after_second == before_second + text_stream::<Color, D>(
            font,
            chars,
            x as int,
            y,
            color,
            bg_color,
        ),
    ensures
        after_first.skip(before_first.len() as int) == after_second.skip(
            before_second.len() as int,
        ),
{
    let appended = text_stream::<Color, D>(font, chars, x as int, y, color, bg_color);
    assert(after_first.skip(before_first.len() as int) =~= appended);
    assert(after_second.skip(before_second.len() as int) =~= appended);
}

/// Rendering text on a display.  Rendering is deterministic: the appended
/// wire stream is a function of the font, the text, the cursor and the two
/// colours alone.
pub trait Writer<Color: Copy>: Display<Color> {
    /// Renders `text` left to right from cursor `(x, y)` in fixed 8 x 8
    /// cells, set glyph bits in `color` and clear ones in `bg_color`.
    fn write_string(
        &mut self,
        font: &GlyphFont,
        text: &str,
        x: usize,
        y: usize,
        color: Color,
        bg_color: Color,
    )
        requires
            font.wf(),
            text.is_ascii(),
            x + 8 * text@.len() <= usize::MAX,
            forall|i: int| 0 <= i < text@.len() ==> #[trigger] Self::cell_ok(((x + 8 * i) as usize), y),
        ensures
            final(self).wire() == old(self).wire() + text_stream::<Color, Self>(
                font@,
                text@,
                x as int,
                y,
                color,
                bg_color,
            ),
    ;
}

impl<Color: Copy, D: Display<Color>> Writer<Color> for D {
    #[verifier::loop_isolation(false)]
    #[verifier::rlimit(80)]
    fn write_string(
        &mut self,
        font: &GlyphFont,
        text: &str,
        x: usize,
        y: usize,
        color: Color,
        bg_color: Color,
    ) {
        let n = text.unicode_len();
        let mut i: usize = 0;
        let mut cx: usize = x;
        proof {
            assert(text@.subrange(0, 0) =~= Seq::<char>::empty());
        }
        while i < n
            invariant
                i <= n,
                cx == x + 8 * i,
                self.wire() == old(self).wire() + text_stream::<Color, D>(
                    font@,
                    text@.subrange(0, i as int),
                    x as int,
                    y,
                    color,
                    bg_color,
                ),
            decreases n - i,
        {
            let ch = text.get_ascii(i);
            let mut letter: Vec<Color> = Vec::new();
            let mut k: usize = 0;
            while k < 64
                invariant
                    k <= 64,
                    letter@.len() == k,
                    forall|j: int|
                        0 <= j < k ==> #[trigger] letter@[j] == glyph_cell(
                            font@,
                            ch,
                            color,
                            bg_color,
                        )[j],
                decreases 64 - k,
            {
                let row = k / 8;
                let col = k % 8;
                let b = font.row_byte(ch, row);
                let mask: u8 = if col == 0 {
                    1
                } else if col == 1 {
                    2
                } else if col == 2 {
                    4
                } else if col == 3 {
                    8
                } else if col == 4 {
                    16
                } else if col == 5 {
                    32
                } else if col == 6 {
                    64
                } else {
                    128
                };
                let is_set = (b / mask) % 2 == 1;
                letter.push(
                    if is_set {
                        color
                    } else {
                        bg_color
                    },
                );
                k += 1;
            }
            proof {
                assert(letter@ =~= glyph_cell(font@, ch, color, bg_color));
                assert(Self::cell_ok(((x + 8 * (i as int)) as usize), y));
                Self::lemma_cell_reads(cx, y);
            }
            self.set_frame_memory_from_buffer(&letter, cx, y, 8, 8);
            proof {
                let done = text@.subrange(0, i + 1);
                assert(done.drop_last() =~= text@.subrange(0, i as int));
                assert(done.last() == text@[i as int]);
                assert(self.wire() =~= old(self).wire() + text_stream::<Color, D>(
                    font@,
                    done,
                    x as int,
                    y,
                    color,
                    bg_color,
                ));
            }
            i += 1;
            cx += 8;
        }
        proof {
            assert(text@.subrange(0, n as int) =~= text@);
        }
    }
}

} // verus!
