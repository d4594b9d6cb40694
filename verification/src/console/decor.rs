//! Window decorations: title bar, buttons and border.
use vstd::prelude::*;

use crate::console::font::Font;
use crate::console::graphics::{
    lemma_sub_block_fits, Frame, Framebuffer, Region, ACCENT, BTN_HOVER_BG, WIN_BORDER,
    WIN_TITLEBAR, WIN_TITLEBAR_ACTIVE, WIN_TITLE_TEXT,
};

verus! {

/// How much room the decorations take around the content of a window.
#[derive(Clone, Copy, PartialEq, Eq, Structural, Debug)]
pub struct DecorMetrics {
    /// Width added to the content.
    pub extra_w: u16,
    /// Height added to the content.
    pub extra_h: u16,
    /// Where the content starts, from the left of the window.
    pub content_x: u16,
    /// Where the content starts, from the top of the window.
    pub content_y: u16,
    /// Height of the title bar.
    pub bar_height: u16,
    /// Number of title bar buttons.
    pub button_count: u8,
}

impl DecorMetrics {
    pub open spec fn wf(&self) -> bool {
        self.content_x <= self.extra_w && self.content_y <= self.extra_h
            && self.bar_height <= self.extra_h
    }
}

/// A style of window decorations.
pub trait Decor<F: Font> {
    spec fn spec_metrics(&self) -> DecorMetrics;

    /// The bytes of a frame after the title bar of a window at its origin was drawn.
    spec fn bar_drawn(
        &self, frame: Frame, inner_width: int, font: &F, title: Seq<u8>, focused: bool, bpp: int,
        hover_button: Option<u8>,
    ) -> Seq<u8>;

    /// The bytes of a frame after the border of a window at its origin was drawn.
    spec fn border_drawn(
        &self, frame: Frame, inner_width: int, inner_height: int, focused: bool, bpp: int,
    ) -> Seq<u8>;

    /// Where a title bar button of a window lies on screen.
    spec fn button_rect(&self, win_x: int, win_y: int, inner_width: int, btn: int) -> Region;

    fn metrics(&self) -> (m: DecorMetrics)
        ensures
            m == self.spec_metrics(),
            m.wf(),
    ;

    fn draw_window_bar(
        &self,
        fb: &mut Framebuffer,
        inner_width: u16,
        font: &F,
        title: &[u8],
        focused: bool,
        bpp: usize,
        hover_button: Option<u8>,
    )
        requires
            1 <= bpp <= 4,
            old(fb)@.fits(
                0, 0, inner_width + self.spec_metrics().extra_w,
                self.spec_metrics().bar_height as int, bpp as int,
            ),
        ensures
            final(fb)@ == old(fb)@.with(
                self.bar_drawn(
                    old(fb)@, inner_width as int, font, title@, focused, bpp as int, hover_button,
                ),
            ),
            final(fb)@.pixels.len() == old(fb)@.pixels.len(),
    ;

    fn draw_window_border(
        &self,
        fb: &mut Framebuffer,
        inner_width: u16,
        inner_height: u16,
        focused: bool,
        bpp: usize,
    )
        requires
            1 <= bpp <= 4,
            old(fb)@.fits(
                0, 0, inner_width + self.spec_metrics().extra_w,
                inner_height + self.spec_metrics().extra_h, bpp as int,
            ),
        ensures
            final(fb)@ == old(fb)@.with(
                self.border_drawn(
                    old(fb)@, inner_width as int, inner_height as int, focused, bpp as int,
                ),
            ),
            final(fb)@.pixels.len() == old(fb)@.pixels.len(),
    ;

    fn button_screen_rect(&self, win_x: u16, win_y: u16, inner_width: u16, btn: u8) -> (r: Region)
        requires
            win_x + inner_width + self.spec_metrics().extra_w <= u16::MAX,
            win_y + self.spec_metrics().bar_height <= u16::MAX,
            btn < self.spec_metrics().button_count,
        ensures
            r == self.button_rect(win_x as int, win_y as int, inner_width as int, btn as int),
            r.wf(),
    ;
}

/// Plain decorations: a filled bar with the title, square buttons at its right
/// end, and a border of one pixel.
pub struct FlatDecor {
    pub button_count: u8,
    pub bar_height: u8,
}

impl FlatDecor {
    /// The left edge of a button in a bar `width` pixels wide; buttons that
    /// find no room sit at the left end.
    pub open spec fn button_left(&self, width: int, btn: int) -> int {
        if (btn + 1) * self.bar_height <= width { width - (btn + 1) * self.bar_height } else { 0 }
    }

    fn left_of_button(&self, width: u32, btn: u8) -> (r: u32)
        ensures
            r == self.button_left(width as int, btn as int),
            r <= width,
    {
        assert((btn + 1) * self.bar_height <= 0x100 * 0xff) by (nonlinear_arith)
            requires 0 <= btn <= 0xff, 0 <= self.bar_height <= 0xff;
        assert(0 <= (btn + 1) * self.bar_height) by (nonlinear_arith)
            requires 0 <= btn, 0 <= self.bar_height;
        let taken: u32 = (btn as u32 + 1) * self.bar_height as u32;
        if taken <= width { width - taken } else { 0 }
    }
}

impl<F: Font> Decor<F> for FlatDecor {
    open spec fn spec_metrics(&self) -> DecorMetrics {
        DecorMetrics {
            extra_w: 2,
            extra_h: (self.bar_height + 2) as u16,
            content_x: 1,
            content_y: (self.bar_height + 1) as u16,
            bar_height: self.bar_height as u16,
            button_count: self.button_count,
        }
    }

    open spec fn bar_drawn(
        &self, frame: Frame, inner_width: int, font: &F, title: Seq<u8>, focused: bool, bpp: int,
        hover_button: Option<u8>,
    ) -> Seq<u8> {
        let width = inner_width + 2;
        let h = self.bar_height as int;
        let bar = frame.filled(
            0, 0, width, h, if focused { WIN_TITLEBAR_ACTIVE } else { WIN_TITLEBAR }, bpp,
        );
        let named = bar.with(font.text_drawn(bar, 4, 2, title, WIN_TITLE_TEXT, bpp));
        match hover_button {
            Some(btn) if h <= width => named.filled(
                self.button_left(width, btn as int), 0,
                if self.button_left(width, btn as int) + h <= width { h } else { 0 }, h,
                BTN_HOVER_BG, bpp,
            ).pixels,
            _ => named.pixels,
        }
    }

    open spec fn border_drawn(
        &self, frame: Frame, inner_width: int, inner_height: int, focused: bool, bpp: int,
    ) -> Seq<u8> {
        let color = if focused { ACCENT } else { WIN_BORDER };
        let w = inner_width + 2;
        let h = inner_height + self.bar_height + 2;
        let a = frame.filled(0, 0, w, 1, color, bpp);
        let b = a.filled(0, h - 1, w, 1, color, bpp);
        let c = b.filled(0, 0, 1, h, color, bpp);
        c.filled(w - 1, 0, 1, h, color, bpp).pixels
    }

    open spec fn button_rect(&self, win_x: int, win_y: int, inner_width: int, btn: int) -> Region {
        let left = self.button_left(inner_width + 2, btn);
        let room = inner_width + 2 - left;
        Region {
            x: (win_x + left) as u16,
            y: win_y as u16,
            width: if self.bar_height <= room { self.bar_height as u16 } else { room as u16 },
            height: self.bar_height as u16,
        }
    }

    fn metrics(&self) -> (m: DecorMetrics) {
        DecorMetrics {
            extra_w: 2,
            extra_h: self.bar_height as u16 + 2,
            content_x: 1,
            content_y: self.bar_height as u16 + 1,
            bar_height: self.bar_height as u16,
            button_count: self.button_count,
        }
    }

    fn draw_window_bar(
        &self,
        fb: &mut Framebuffer,
        inner_width: u16,
        font: &F,
        title: &[u8],
        focused: bool,
        bpp: usize,
        hover_button: Option<u8>,
    ) {
        let ghost before = fb@;
        let width: u32 = inner_width as u32 + 2;
        let h: u32 = self.bar_height as u32;
        let color: u32 = if focused { WIN_TITLEBAR_ACTIVE } else { WIN_TITLEBAR };
        fb.fill(0, 0, width as usize, h as usize, color, bpp);
        font.draw_string(fb, 4, 2, title, WIN_TITLE_TEXT, bpp);
        if let Some(btn) = hover_button {
            if h <= width {
                let left: u32 = self.left_of_button(width, btn);
                let w: u32 = if left + h <= width { h } else { 0 };
                proof {
                    lemma_sub_block_fits(
                        before, 0, 0, width as int, h as int, left as int, 0, w as int, h as int,
                        bpp as int,
                    );
                }
                fb.fill(left as usize, 0, w as usize, h as usize, BTN_HOVER_BG, bpp);
            }
        }
    }

    fn draw_window_border(
        &self,
        fb: &mut Framebuffer,
        inner_width: u16,
        inner_height: u16,
        focused: bool,
        bpp: usize,
    ) {
        let ghost before = fb@;
        let color: u32 = if focused { ACCENT } else { WIN_BORDER };
        let w: usize = inner_width as usize + 2;
        let h: usize = inner_height as usize + self.bar_height as usize + 2;
        proof {
            let (wi, hi, b) = (w as int, h as int, bpp as int);
            lemma_sub_block_fits(before, 0, 0, wi, hi, 0, 0, wi, 1, b);
            lemma_sub_block_fits(before, 0, 0, wi, hi, 0, hi - 1, wi, 1, b);
            lemma_sub_block_fits(before, 0, 0, wi, hi, 0, 0, 1, hi, b);
            lemma_sub_block_fits(before, 0, 0, wi, hi, wi - 1, 0, 1, hi, b);
        }
        fb.fill(0, 0, w, 1, color, bpp);
        fb.fill(0, h - 1, w, 1, color, bpp);
        fb.fill(0, 0, 1, h, color, bpp);
        fb.fill(w - 1, 0, 1, h, color, bpp);
    }

    fn button_screen_rect(&self, win_x: u16, win_y: u16, inner_width: u16, btn: u8) -> (r: Region) {
        let left: u32 = self.left_of_button(inner_width as u32 + 2, btn);
        let room: u32 = inner_width as u32 + 2 - left;
        Region {
            x: win_x + left as u16,
            y: win_y,
            width: if self.bar_height as u32 <= room { self.bar_height as u16 } else { room as u16 },
            height: self.bar_height as u16,
        }
    }
}

} // verus!
