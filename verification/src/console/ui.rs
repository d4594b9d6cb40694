//! Drawing primitives that keep track of the regions they dirty.
use vstd::prelude::*;

use crate::bits::lesser;
use crate::console::font::Font;
use crate::console::graphics::{
    add_dirty_region, dirty_with, lemma_sub_block_fits, regions_wf, Frame, Framebuffer, Region,
};

verus! {

/// A framebuffer together with the list of regions drawn to so far.
pub struct UiSurface {
    pub fb: Framebuffer,
    pub bpp: usize,
    pub dirty: Vec<Region>,
}

/// What a surface is, as a value.
pub struct Ui {
    pub frame: Frame,
    pub bpp: int,
    pub dirty: Seq<Region>,
}

impl View for UiSurface {
    type V = Ui;

    open spec fn view(&self) -> Ui {
        Ui { frame: self.fb@, bpp: self.bpp as int, dirty: self.dirty@ }
    }
}

impl Ui {
    /// Every pixel of the surface has bytes behind it.
    pub open spec fn wf(&self) -> bool {
        1 <= self.bpp <= 4
            && regions_wf(self.dirty)
            && self.frame.fits(0, 0, self.frame.width as int, self.frame.height as int, self.bpp)
    }

    pub open spec fn same_shape(&self, other: Ui) -> bool {
        self.frame.same_shape(other.frame) && self.bpp == other.bpp
    }

    /// A region that is not empty was marked dirty.
    pub open spec fn marked(&self, x: int, y: int, w: int, h: int) -> Ui {
        if w == 0 || h == 0 {
            *self
        } else {
            Ui {
                dirty: dirty_with(
                    self.dirty,
                    Region { x: x as u16, y: y as u16, width: w as u16, height: h as u16 },
                ),
                ..*self
            }
        }
    }

    /// A rectangle was filled, clipped at the right and bottom of the surface.
    pub open spec fn fill(&self, x: int, y: int, w: int, h: int, color: u32) -> Ui {
        let cw = lesser(x + w, self.frame.width as int) - x;
        let ch = lesser(y + h, self.frame.height as int) - y;
        let drawn = Ui { frame: self.frame.filled(x, y, cw, ch, color, self.bpp), ..*self };
        drawn.marked(x, y, cw, ch)
    }

    /// A line of one pixel was drawn, clipped at the right; nothing below the surface.
    pub open spec fn hline(&self, x: int, y: int, w: int, color: u32) -> Ui {
        if y >= self.frame.height {
            *self
        } else {
            let cw = lesser(x + w, self.frame.width as int) - x;
            let drawn = Ui { frame: self.frame.filled(x, y, cw, 1, color, self.bpp), ..*self };
            drawn.marked(x, y, cw, 1)
        }
    }

    /// A string was drawn with its background kept.
    pub open spec fn text<F: Font>(&self, font: &F, x: int, y: int, text: Seq<u8>, fg: u32) -> Ui {
        let pixels = font.text_drawn(self.frame, x, y, text, fg, self.bpp);
        let drawn = Ui { frame: self.frame.with(pixels), ..*self };
        drawn.marked(x, y, font.text_width(text) as int, font.height() as int)
    }

    /// A string was drawn over a background colour.
    pub open spec fn text_bg<F: Font>(
        &self, font: &F, x: int, y: int, text: Seq<u8>, fg: u32, bg: u32,
    ) -> Ui {
        let cells = Seq::new(text.len(), |i: int| (text[i], fg, bg));
        let pixels = font.cells_drawn(self.frame, x, y, cells, self.bpp);
        let drawn = Ui { frame: self.frame.with(pixels), ..*self };
        drawn.marked(x, y, font.text_width(text) as int, font.height() as int)
    }
}

impl UiSurface {
    pub fn new(fb: Framebuffer, bpp: usize, dirty: Vec<Region>) -> (r: Self)
        ensures
            r == (UiSurface { fb, bpp, dirty }),
    {
        Self { fb, bpp, dirty }
    }

    /// Fill a rectangle with a solid colour.
    pub fn fill_rect(&mut self, x: u16, y: u16, w: u16, h: u16, color: u32)
        requires
            old(self)@.wf(),
            x + w <= u16::MAX,
            y + h <= u16::MAX,
            x <= old(self).fb.width,
            y <= old(self).fb.height,
        ensures
            final(self)@ == old(self)@.fill(x as int, y as int, w as int, h as int, color),
            final(self)@.same_shape(old(self)@),
            final(self)@.wf(),
    {
        let ghost before = self@;
        let x_end: u16 = if x + w <= self.fb.width { x + w } else { self.fb.width };
        let y_end: u16 = if y + h <= self.fb.height { y + h } else { self.fb.height };
        let cw: u16 = x_end - x;
        let ch: u16 = y_end - y;
        proof {
            lemma_sub_block_fits(
                before.frame, 0, 0, before.frame.width as int, before.frame.height as int,
                x as int, y as int, cw as int, ch as int, before.bpp,
            );
        }
        self.fb.fill(x as usize, y as usize, cw as usize, ch as usize, color, self.bpp);
        self.mark_dirty(x, y, cw, ch);
    }

    /// Draw a horizontal line of one pixel.
    pub fn draw_hline(&mut self, x: u16, y: u16, w: u16, color: u32)
        requires
            old(self)@.wf(),
            y < old(self).fb.height ==> x + w <= u16::MAX && x <= old(self).fb.width,
        ensures
            final(self)@ == old(self)@.hline(x as int, y as int, w as int, color),
            final(self)@.same_shape(old(self)@),
            final(self)@.wf(),
    {
        if y >= self.fb.height {
            return;
        }
        let ghost before = self@;
        let x_end: u16 = if x + w <= self.fb.width { x + w } else { self.fb.width };
        let cw: u16 = x_end - x;
        proof {
            lemma_sub_block_fits(
                before.frame, 0, 0, before.frame.width as int, before.frame.height as int,
                x as int, y as int, cw as int, 1, before.bpp,
            );
        }
        self.fb.fill(x as usize, y as usize, cw as usize, 1, color, self.bpp);
        self.mark_dirty(x, y, cw, 1);
    }

    /// Draw a string with a transparent background.
    pub fn draw_text<F: Font>(&mut self, font: &F, x: u16, y: u16, text: &[u8], fg: u32)
        requires
            old(self)@.wf(),
            x + font.text_width(text@) <= u16::MAX,
            y + font.height() <= u16::MAX,
        ensures
            final(self)@ == old(self)@.text(font, x as int, y as int, text@, fg),
            final(self)@.same_shape(old(self)@),
            final(self)@.wf(),
    {
        let text_width: u16 = font.compute_width(text);
        let text_height: u16 = font.get_height() as u16;
        font.draw_string(&mut self.fb, x, y, text, fg, self.bpp);
        self.mark_dirty(x, y, text_width, text_height);
    }

    /// Draw a string over a background colour.
    pub fn draw_text_bg<F: Font>(
        &mut self, font: &F, x: u16, y: u16, text: &[u8], fg: u32, bg: u32,
    )
        requires
            old(self)@.wf(),
            x + font.text_width(text@) <= u16::MAX,
            y + font.height() <= u16::MAX,
        ensures
            final(self)@ == old(self)@.text_bg(font, x as int, y as int, text@, fg, bg),
            final(self)@.same_shape(old(self)@),
            final(self)@.wf(),
    {
        let text_width: u16 = font.compute_width(text);
        let text_height: u16 = font.get_height() as u16;
        let mut cells: Vec<(u8, u32, u32)> = Vec::new();
        let mut i: usize = 0;
        while i < text.len()
            invariant
                i <= text@.len(),
                cells@ =~= Seq::new(i as nat, |k: int| (text@[k], fg, bg)),
            decreases text.len() - i,
        {
            cells.push((text[i], fg, bg));
            i += 1;
        }
        font.draw_colored_string(&mut self.fb, x, y, cells.as_slice(), self.bpp);
        self.mark_dirty(x, y, text_width, text_height);
    }

    fn mark_dirty(&mut self, x: u16, y: u16, w: u16, h: u16)
        requires
            old(self)@.wf(),
            x + w <= u16::MAX,
            y + h <= u16::MAX,
        ensures
            final(self)@ == old(self)@.marked(x as int, y as int, w as int, h as int),
            final(self)@.wf(),
    {
        if w == 0 || h == 0 {
            return;
        }
        add_dirty_region(&mut self.dirty, Region { x, y, width: w, height: h });
    }
}

} // verus!
