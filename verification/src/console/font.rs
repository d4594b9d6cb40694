//! Fonts, and the fixed-cell bitmap font of the text console.
use vstd::prelude::*;

use crate::console::graphics::{pixel_written, write_pixel, Frame, Framebuffer};

verus! {

/// The metrics of one glyph.
#[derive(Clone, Copy, PartialEq, Eq, Structural, Debug)]
pub struct Glyph {
    pub width: u8,
}

/// A font draws text into a framebuffer, clipped to the framebuffer.
pub trait Font {
    /// The height of every glyph, in pixels.
    spec fn height(&self) -> u8;

    spec fn glyph(&self, ch: u8) -> Option<Glyph>;

    /// The width of a string, in pixels.
    spec fn text_width(&self, text: Seq<u8>) -> u16;

    /// The bytes of a frame after a string was drawn with its background kept.
    spec fn text_drawn(
        &self, frame: Frame, x: int, y: int, text: Seq<u8>, fg: u32, bpp: int,
    ) -> Seq<u8>;

    /// The bytes of a frame after a run of `(character, foreground, background)`
    /// cells was drawn.
    spec fn cells_drawn(
        &self, frame: Frame, x: int, y: int, cells: Seq<(u8, u32, u32)>, bpp: int,
    ) -> Seq<u8>;

    fn get_height(&self) -> (h: u8)
        ensures
            h == self.height(),
    ;

    fn get_glyph(&self, ch: u8) -> (g: Option<Glyph>)
        ensures
            g == self.glyph(ch),
    ;

    fn compute_width(&self, text: &[u8]) -> (w: u16)
        ensures
            w == self.text_width(text@),
    ;

    fn draw_string(&self, fb: &mut Framebuffer, x: u16, y: u16, text: &[u8], fg: u32, bpp: usize)
        requires
            1 <= bpp <= 4,
        ensures
            final(fb)@ == old(fb)@.with(
                self.text_drawn(old(fb)@, x as int, y as int, text@, fg, bpp as int),
            ),
            final(fb)@.pixels.len() == old(fb)@.pixels.len(),
    ;

    fn draw_colored_string(
        &self, fb: &mut Framebuffer, x: u16, y: u16, cells: &[(u8, u32, u32)], bpp: usize,
    )
        requires
            1 <= bpp <= 4,
        ensures
            final(fb)@ == old(fb)@.with(
                self.cells_drawn(old(fb)@, x as int, y as int, cells@, bpp as int),
            ),
            final(fb)@.pixels.len() == old(fb)@.pixels.len(),
    ;
}

/// A font of 256 glyphs, each `height` rows of up to eight pixels. A row is one
/// byte, its leftmost pixel in the top bit.
pub struct BitmapFont {
    pub width: u8,
    pub height: u8,
    pub rows: Vec<u8>,
}

/// The pixel at `(px, py)` takes `color`, if it lies in the frame.
pub open spec fn dot(frame: Frame, px: int, py: int, color: u32, bpp: int) -> Frame {
    let at = frame.at(px, py, bpp);
    if px < frame.width && py < frame.height && at + bpp <= frame.pixels.len() {
        frame.with(pixel_written(frame.pixels, at, color, bpp))
    } else {
        frame
    }
}

/// The first `n` pixels of one glyph row.
pub open spec fn glyph_row(
    frame: Frame, px: int, py: int, bits: u8, fg: u32, bg: Option<u32>, bpp: int, n: nat,
) -> Frame
    decreases n,
{
    if n == 0 {
        frame
    } else {
        let c = n - 1;
        let prev = glyph_row(frame, px, py, bits, fg, bg, bpp, (n - 1) as nat);
        if (bits >> ((7 - c) as u8)) & 1 == 1 {
            dot(prev, px + c, py, fg, bpp)
        } else if bg.is_some() {
            dot(prev, px + c, py, bg.unwrap(), bpp)
        } else {
            prev
        }
    }
}

impl BitmapFont {
    pub open spec fn wf(&self) -> bool {
        1 <= self.width <= 8 && self.rows@.len() == 256 * self.height
    }

    pub open spec fn bits(&self, ch: u8, row: int) -> u8 {
        let i = ch * self.height + row;
        if 0 <= i < self.rows@.len() { self.rows@[i] } else { 0 }
    }

    /// The first `n` rows of a glyph.
    pub open spec fn glyph_rows(
        &self, frame: Frame, px: int, py: int, ch: u8, fg: u32, bg: Option<u32>, bpp: int, n: nat,
    ) -> Frame
        decreases n,
    {
        if n == 0 {
            frame
        } else {
            glyph_row(
                self.glyph_rows(frame, px, py, ch, fg, bg, bpp, (n - 1) as nat),
                px, py + (n - 1), self.bits(ch, n - 1), fg, bg, bpp, self.columns(),
            )
        }
    }

    pub open spec fn columns(&self) -> nat {
        if self.width <= 8 { self.width as nat } else { 8 }
    }

    /// The first `n` cells of a run, side by side.
    pub open spec fn run(
        &self, frame: Frame, x: int, y: int, cells: Seq<(u8, u32, Option<u32>)>, bpp: int, n: nat,
    ) -> Frame
        decreases n,
    {
        if n == 0 {
            frame
        } else {
            let (ch, fg, bg) = cells[n - 1];
            self.glyph_rows(
                self.run(frame, x, y, cells, bpp, (n - 1) as nat),
                x + (n - 1) * self.width, y, ch, fg, bg, bpp, self.height as nat,
            )
        }
    }

    fn draw_glyph(
        &self, fb: &mut Framebuffer, px: u64, py: u64, ch: u8, fg: u32, bg: Option<u32>, bpp: usize,
    )
        requires
            1 <= bpp <= 4,
            px <= 0x1_0000_0000_0000,
            py <= 0x1_0000,
        ensures
            final(fb)@ == self.glyph_rows(
                old(fb)@, px as int, py as int, ch, fg, bg, bpp as int, self.height as nat,
            ),
            final(fb)@.pixels.len() == old(fb)@.pixels.len(),
            final(fb)@ == old(fb)@.with(final(fb)@.pixels),
    {
        let ghost before = fb@;
        let columns: u8 = if self.width <= 8 { self.width } else { 8 };
        let mut row: u8 = 0;
        while row < self.height
            invariant
                row <= self.height,
                columns == self.columns(),
                columns <= 8,
                1 <= bpp <= 4,
                px <= 0x1_0000_0000_0000,
                py <= 0x1_0000,
                fb@ == self.glyph_rows(
                    before, px as int, py as int, ch, fg, bg, bpp as int, row as nat,
                ),
                fb@.pixels.len() == before.pixels.len(),
                fb@ == before.with(fb@.pixels),
            decreases self.height - row,
        {
            assert(ch * self.height <= 0xff * 0xff) by (nonlinear_arith)
                requires 0 <= ch <= 0xff, 0 <= self.height <= 0xff;
            assert(ch * self.height >= 0) by (nonlinear_arith)
                requires 0 <= ch, 0 <= self.height;
            let at: usize = ch as usize * self.height as usize + row as usize;
            let bits: u8 = if at < self.rows.len() { self.rows[at] } else { 0 };
            let ghost start = fb@;
            let mut c: u8 = 0;
            while c < columns
                invariant
                    c <= columns <= 8,
                    row < self.height,
                    1 <= bpp <= 4,
                    px <= 0x1_0000_0000_0000,
                    py <= 0x1_0000,
                    fb@ == glyph_row(
                        start, px as int, py + row, bits, fg, bg, bpp as int, c as nat,
                    ),
                    fb@.pixels.len() == start.pixels.len(),
                    fb@ == start.with(fb@.pixels),
                decreases columns - c,
            {
                if (bits >> (7 - c)) & 1 == 1 {
                    put_dot(fb, px + c as u64, py + row as u64, fg, bpp);
                } else if let Some(color) = bg {
                    put_dot(fb, px + c as u64, py + row as u64, color, bpp);
                }
                c += 1;
            }
            row += 1;
        }
    }
}

/// Draw one clipped pixel.
fn put_dot(fb: &mut Framebuffer, px: u64, py: u64, color: u32, bpp: usize)
    requires
        1 <= bpp <= 4,
    ensures
        final(fb)@ == dot(old(fb)@, px as int, py as int, color, bpp as int),
        final(fb)@.pixels.len() == old(fb)@.pixels.len(),
        final(fb)@ == old(fb)@.with(final(fb)@.pixels),
{
    if px < fb.width as u64 && py < fb.height as u64 {
        assert(py * fb.stride <= 0xffff * 0xffff) by (nonlinear_arith)
            requires 0 <= py <= 0xffff, 0 <= fb.stride <= 0xffff;
        assert(px * bpp <= 0xffff * 4) by (nonlinear_arith)
            requires 0 <= px <= 0xffff, 1 <= bpp <= 4;
        assert(0 <= py * fb.stride) by (nonlinear_arith) requires 0 <= py, 0 <= fb.stride;
        assert(0 <= px * bpp) by (nonlinear_arith) requires 0 <= px, 0 <= bpp;
        let rel: u64 = py * fb.stride as u64 + px * bpp as u64;
        let at: u128 = fb.origin as u128 + rel as u128;
        if at + bpp as u128 <= fb.pixels.len() as u128 {
            write_pixel(fb.pixels.as_mut_slice(), at as usize, color, bpp);
        }
    }
}

impl Font for BitmapFont {
    open spec fn height(&self) -> u8 {
        self.height
    }

    open spec fn glyph(&self, ch: u8) -> Option<Glyph> {
        Some(Glyph { width: self.width })
    }

    open spec fn text_width(&self, text: Seq<u8>) -> u16 {
        if text.len() * self.width <= 0xffff { (text.len() * self.width) as u16 } else { 0xffff }
    }

    open spec fn text_drawn(
        &self, frame: Frame, x: int, y: int, text: Seq<u8>, fg: u32, bpp: int,
    ) -> Seq<u8> {
        let cells = Seq::new(text.len(), |i: int| (text[i], fg, None::<u32>));
        self.run(frame, x, y, cells, bpp, cells.len()).pixels
    }

    open spec fn cells_drawn(
        &self, frame: Frame, x: int, y: int, cells: Seq<(u8, u32, u32)>, bpp: int,
    ) -> Seq<u8> {
        let all = Seq::new(cells.len(), |i: int| (cells[i].0, cells[i].1, Some(cells[i].2)));
        self.run(frame, x, y, all, bpp, all.len()).pixels
    }

    fn get_height(&self) -> (h: u8) {
        self.height
    }

    fn get_glyph(&self, ch: u8) -> (g: Option<Glyph>) {
        Some(Glyph { width: self.width })
    }

    fn compute_width(&self, text: &[u8]) -> (w: u16) {
        let n: usize = text.len();
        if n <= 0xffff {
            assert(n * self.width <= 0xffff * 0xff) by (nonlinear_arith)
                requires 0 <= n <= 0xffff, 0 <= self.width <= 0xff;
            let w: u32 = n as u32 * self.width as u32;
            if w <= 0xffff { w as u16 } else { 0xffff }
        } else if self.width == 0 {
            assert(n * self.width == 0) by (nonlinear_arith) requires self.width == 0;
            0
        } else {
            assert(n * self.width > 0xffff) by (nonlinear_arith)
                requires n > 0xffff, self.width >= 1;
            0xffff
        }
    }

    fn draw_string(&self, fb: &mut Framebuffer, x: u16, y: u16, text: &[u8], fg: u32, bpp: usize) {
        let ghost before = fb@;
        let ghost cells = Seq::new(text@.len(), |i: int| (text@[i], fg, None::<u32>));
        let mut px: u64 = x as u64;
        let mut i: usize = 0;
        while i < text.len()
            invariant
                i <= text@.len(),
                1 <= bpp <= 4,
                px <= 0x1_0000_0000,
                px == x + i * self.width || (px == 0x1_0000_0000 && x + i * self.width >= px),
                cells == Seq::new(text@.len(), |i: int| (text@[i], fg, None::<u32>)),
                fb@ == self.run(before, x as int, y as int, cells, bpp as int, i as nat),
                fb@.pixels.len() == before.pixels.len(),
                fb@ == before.with(fb@.pixels),
            decreases text.len() - i,
        {
            let ghost here = fb@;
            self.draw_glyph(fb, px, y as u64, text[i], fg, None, bpp);
            proof {
                lemma_far_glyph(
                    *self, here, x + i * self.width, px as int, y as int, text@[i as int], fg, None,
                    bpp as int, self.height as nat,
                );
                assert((i + 1) * self.width == i * self.width + self.width) by (nonlinear_arith);
            }
            px += self.width as u64;
            if px > 0x1_0000_0000 {
                px = 0x1_0000_0000;
            }
            i += 1;
        }
    }

    fn draw_colored_string(
        &self, fb: &mut Framebuffer, x: u16, y: u16, cells: &[(u8, u32, u32)], bpp: usize,
    ) {
        let ghost before = fb@;
        let ghost all =
            Seq::new(cells@.len(), |i: int| (cells@[i].0, cells@[i].1, Some(cells@[i].2)));
        let mut px: u64 = x as u64;
        let mut i: usize = 0;
        while i < cells.len()
            invariant
                i <= cells@.len(),
                1 <= bpp <= 4,
                px <= 0x1_0000_0000,
                px == x + i * self.width || (px == 0x1_0000_0000 && x + i * self.width >= px),
                all == Seq::new(
                    cells@.len(), |i: int| (cells@[i].0, cells@[i].1, Some(cells@[i].2)),
                ),
                fb@ == self.run(before, x as int, y as int, all, bpp as int, i as nat),
                fb@.pixels.len() == before.pixels.len(),
                fb@ == before.with(fb@.pixels),
            decreases cells.len() - i,
        {
            let ghost here = fb@;
            let (ch, fg, bg) = cells[i];
            self.draw_glyph(fb, px, y as u64, ch, fg, Some(bg), bpp);
            proof {
                lemma_far_glyph(
                    *self, here, x + i * self.width, px as int, y as int, ch, fg, Some(bg),
                    bpp as int, self.height as nat,
                );
                assert((i + 1) * self.width == i * self.width + self.width) by (nonlinear_arith);
            }
            px += self.width as u64;
            if px > 0x1_0000_0000 {
                px = 0x1_0000_0000;
            }
            i += 1;
        }
    }
}

/// Every column beyond 65535 is clipped, so two such positions draw alike.
proof fn lemma_far_glyph(
    font: BitmapFont, frame: Frame, a: int, b: int, y: int, ch: u8, fg: u32, bg: Option<u32>,
    bpp: int, n: nat,
)
    requires
        a == b || (a >= 0x1_0000_0000 && b >= 0x1_0000_0000),
    ensures
        font.glyph_rows(frame, a, y, ch, fg, bg, bpp, n)
            == font.glyph_rows(frame, b, y, ch, fg, bg, bpp, n),
    decreases n,
{
    if n > 0 {
        lemma_far_glyph(font, frame, a, b, y, ch, fg, bg, bpp, (n - 1) as nat);
        lemma_far_row(
            font.glyph_rows(frame, a, y, ch, fg, bg, bpp, (n - 1) as nat), a, b, y + (n - 1),
            font.bits(ch, n - 1), fg, bg, bpp, font.columns(),
        );
    }
}

proof fn lemma_far_row(
    frame: Frame, a: int, b: int, y: int, bits: u8, fg: u32, bg: Option<u32>, bpp: int, n: nat,
)
    requires
        a == b || (a >= 0x1_0000_0000 && b >= 0x1_0000_0000),
    ensures
        glyph_row(frame, a, y, bits, fg, bg, bpp, n) == glyph_row(frame, b, y, bits, fg, bg, bpp, n),
    decreases n,
{
    if n > 0 {
        lemma_far_row(frame, a, b, y, bits, fg, bg, bpp, (n - 1) as nat);
    }
}

} // verus!
