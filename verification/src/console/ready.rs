//! Whether a frame can be drawn: everything on it must lie on the screen and in the buffers.
use vstd::prelude::*;

use crate::console::compositor::{tiled_before, tiled_count, Compositor, Window, WindowMode};
use crate::console::decor::{Decor, DecorMetrics};
use crate::console::font::Font;
use crate::console::graphics::Framebuffer;
use crate::console::manager::ConsoleManager;
use crate::console::scene::{draw_order, lemma_order_bounds, place, placeable, sub_frame, tile};
use crate::console::scrollbar::at_least_arrow;
use crate::console::topbar::{bar_fits, bar_on_screen, digit_text, TopBarState};
use crate::console::window::{
    arrows_fit, char_width, lay_out_text, layout_possible, text_layout, TextLayout,
};
use crate::text::sub_bytes;

verus! {

/// Whether a block of the part of a frame at `(x, y)` lies in the buffer.
fn sub_fits(
    fb: &Framebuffer, x: i64, y: i64, left: i64, top: i64, w: i64, h: i64, bpp: usize,
) -> (r: bool)
    requires
        fb.origin == 0,
        0 <= x <= 0x2_0000,
        0 <= y <= 0x2_0000,
        0 <= left <= 0x2_0000,
        0 <= top <= 0x2_0000,
        0 <= w <= 0x2_0000,
        0 <= h <= 0x2_0000,
        1 <= bpp <= 4,
    ensures
        r == sub_frame(fb@, x as int, y as int, bpp as int).fits(
            left as int, top as int, w as int, h as int, bpp as int,
        ),
{
    if w == 0 || h == 0 {
        return true;
    }
    let stride: i64 = fb.stride as i64;
    let b: i64 = bpp as i64;
    proof {
        lemma_product(y as int, stride as int);
        lemma_product(top as int, stride as int);
        lemma_product(h - 1, stride as int);
        lemma_product(x as int, b as int);
        lemma_product(left as int, b as int);
        lemma_product(w as int, b as int);
    }
    let end: i64 = y * stride + x * b + top * stride + left * b + (h - 1) * stride + w * b;
    end as u64 <= fb.pixels.len() as u64
}

proof fn lemma_product(a: int, b: int)
    requires
        0 <= a <= 0x2_0000,
        0 <= b <= 0xffff,
    ensures
        0 <= a * b <= 0x2_0000 * 0xffff,
{
    assert(0 <= a * b <= 0x2_0000 * 0xffff) by (nonlinear_arith)
        requires 0 <= a <= 0x2_0000, 0 <= b <= 0xffff;
}

/// Whether the top bar has room for its name, its tabs and its clock.
fn bar_ready<F: Font>(st: &TopBarState, font: &F, width: u16, height: u16) -> (r: bool)
    requires
        st.wf(),
    ensures
        r == (bar_fits(*st, font, width as int) && bar_on_screen(
            *st, font, width as int, height as int,
        )),
{
    let name: Vec<u8> = sub_bytes(
        st.active_window_name.as_slice(), 0, st.active_name_len as usize,
    );
    assert(name@ =~= st.name());
    let name_width: u32 = font.compute_width(name.as_slice()) as u32;
    let clock_width: u32 = font.compute_width(st.clock_text.as_slice()) as u32;
    let font_height: u32 = font.get_height() as u32;
    let top: u32 = if font_height <= 25 { (25 - font_height) / 2 } else { 0 };
    if width < 144 || 10 + name_width > width as u32 || clock_width + 10 > width as u32 || top
        + font_height > height as u32 {
        return false;
    }
    let mut n: u8 = 1;
    while n <= 6
        invariant
            1 <= n <= 7,
            forall|k: int| 1 <= k < n ==> font.text_width(#[trigger] digit_text(k)) <= 24,
        decreases 7 - n,
    {
        let digit: Vec<u8> = vec![48 + n];
        assert(digit@ =~= digit_text(n as int));
        if font.compute_width(digit.as_slice()) > 24 {
            return false;
        }
        n += 1;
    }
    true
}

impl Compositor {
    /// Whether a tile has room for its decorations.
    fn tile_has_room(&self, count: usize, pos: usize) -> (r: bool)
        requires
            self.wf(),
            count <= 4,
            pos < 4,
            count == 2 ==> pos < 2,
            count == 3 ==> pos < 3,
        ensures
            ({
                let (x, y, w, h) = tile(self.look(), self.metrics, count as int, pos as int);
                0 <= x && 0 <= y && r == (0 <= w && 0 <= h)
            }),
    {
        let screen_w: u16 = self.fb.width;
        let desk: u16 = self.fb.height - 28;
        let whole_w: bool = count <= 2 || (count == 3 && pos == 0);
        let cell_w: u16 = if whole_w { screen_w } else { screen_w / 2 };
        let cell_h: u16 = if count <= 1 { desk } else { desk / 2 };
        proof {
            lemma_product(pos as int, (desk / 2) as int);
            if pos > 0 {
                lemma_product(pos - 1, (screen_w / 2) as int);
            }
            lemma_product((pos % 2) as int, (screen_w / 2) as int);
            lemma_product((pos / 2) as int, (desk / 2) as int);
        }
        self.metrics.extra_w <= cell_w && self.metrics.extra_h <= cell_h
    }

    /// The place of a window, where it has room for its decorations. `pos` is its place
    /// among the tiled ones.
    fn window_place(&self, idx: usize, count: usize, pos: usize) -> (r: Option<
        (u16, u16, u16, u16),
    >)
        requires
            self.wf(),
            idx < self.windows@.len(),
            count == tiled_count(self.windows@),
            self.windows@[idx as int].mode == WindowMode::Tiled ==> pos == tiled_before(
                self.windows@, idx as int,
            ) && pos < count,
        ensures
            ({
                let (x, y, w, h) = place(self.windows@, self.look(), self.metrics, idx as int);
                &&& 0 <= x && 0 <= y
                &&& r.is_some() == (0 <= w && 0 <= h)
                &&& r matches Some(p) ==> p.0 == x && p.1 == y && p.2 == w && p.3 == h
            }),
    {
        let win: Window = self.windows[idx];
        match win.mode {
            WindowMode::Tiled => {
                if self.tile_has_room(count, pos) {
                    Some(self.tile_place(count, pos))
                } else {
                    None
                }
            },
            WindowMode::Floating => Some((win.x, win.y, 640, 400)),
        }
    }

    /// Whether the text of a console fits in a window of `w` by `h` pixels at `(x, y)`.
    fn text_ready<F: Font>(&self, font: &F, x: u16, y: u16, w: u16, h: u16) -> (r: bool)
        requires
            self.wf(),
            self.metrics.content_x + at_least_arrow(w as int) <= u16::MAX,
            self.metrics.content_y + at_least_arrow(h as int) <= u16::MAX,
        ensures
            r == self.text_fits(font, x as int, y as int, w as int, h as int),
    {
        let m: DecorMetrics = self.metrics;
        let bpp: usize = self.depth.to_usize();
        let char_w: usize = match font.get_glyph(65) {
            Some(g) => g.width as usize,
            None => 8,
        };
        let char_h: usize = font.get_height() as usize;
        let (outer_w, outer_h): (usize, usize) = (w as usize, h as usize);
        let tall: bool = 25 * char_h > outer_h;
        let wide: bool = 80 * char_w > outer_w;
        if (tall && !wide && outer_w < 14) || (wide && !tall && outer_h < 14) {
            return false;
        }
        let l: TextLayout = lay_out_text(outer_w, outer_h, char_w, char_h);
        if (l.need_v && m.content_y as usize + l.area_h < 14) || (l.need_h && m.content_x as usize
            + l.area_w < 14) {
            return false;
        }
        let inner_w: i64 = if w >= 14 { w as i64 } else { 14 };
        let inner_h: i64 = if h >= 14 { h as i64 } else { 14 };
        sub_fits(
            &self.scratch, x as i64, y as i64, m.content_x as i64, m.content_y as i64, inner_w,
            inner_h, bpp,
        )
    }

    /// The text of a console fits in a window of `w` by `h` pixels at `(x, y)`.
    spec fn text_fits<F: Font>(&self, font: &F, x: int, y: int, w: int, h: int) -> bool {
        let m = self.metrics;
        &&& layout_possible(w, h, char_width(font), font.height() as int)
        &&& arrows_fit(m, text_layout(w, h, char_width(font), font.height() as int))
        &&& sub_frame(self.scratch@, x, y, self.bpp()).fits(
            m.content_x as int, m.content_y as int, at_least_arrow(w), at_least_arrow(h),
            self.bpp(),
        )
    }

    /// Whether a window can be drawn. `pos` is its place among the tiled ones.
    fn window_ready<F: Font, D: Decor<F>>(
        &self, conman: &ConsoleManager, font: &F, decor: &D, idx: usize, count: usize, pos: usize,
    ) -> (r: bool)
        requires
            self.wf(),
            conman.wf(),
            decor.spec_metrics() == self.metrics,
            idx < self.windows@.len(),
            count == tiled_count(self.windows@),
            self.windows@[idx as int].mode == WindowMode::Tiled ==> pos == tiled_before(
                self.windows@, idx as int,
            ) && pos < count,
        ensures
            r == placeable(self.scene(conman.consoles@), self.look(), font, decor, idx as int),
    {
        let m: DecorMetrics = self.metrics;
        let bpp: usize = self.depth.to_usize();
        let win: Window = self.windows[idx];
        let (x, y, w, h): (u16, u16, u16, u16) = match self.window_place(idx, count, pos) {
            Some(p) => p,
            None => {
                return false;
            },
        };
        let bw: i64 = if win.last_width >= w { win.last_width as i64 } else { w as i64 };
        let bh: i64 = if win.last_height >= h { win.last_height as i64 } else { h as i64 };
        let inner_w: i64 = if w >= 14 { w as i64 } else { 14 };
        let inner_h: i64 = if h >= 14 { h as i64 } else { 14 };
        let (left, top): (i64, i64) = (x as i64, y as i64);
        let (extra_w, extra_h): (i64, i64) = (m.extra_w as i64, m.extra_h as i64);
        if x > self.fb.width || y > self.fb.height || left + bw + extra_w > 0xffff || top + bh
            + extra_h > 0xffff || left + m.content_x as i64 + inner_w > 0xffff || top
            + m.content_y as i64 + inner_h > 0xffff || win.console_index >= conman.consoles.len() {
            return false;
        }
        let fb: &Framebuffer = &self.scratch;
        let is_text: bool =
            conman.consoles[win.console_index].terminal.graphics_buffer.is_none();
        let text: bool = !is_text || self.text_ready(font, x, y, w, h);
        let whole: bool = sub_fits(
            fb, left, top, 0, 0, w as i64 + extra_w, h as i64 + extra_h, bpp,
        );
        let larger: bool = self.force_redraw || sub_fits(
            fb, left, top, 0, 0, bw + extra_w, bh + extra_h, bpp,
        );
        text && whole && larger && self.starts_in(x, y)
    }

    /// Whether a pixel begins in the buffer or at its end.
    fn starts_in(&self, x: u16, y: u16) -> (r: bool)
        requires
            self.wf(),
        ensures
            r == (self.scratch@.at(x as int, y as int, self.bpp()) <= self.scratch@.pixels.len()),
    {
        let (stride, b): (u64, u64) = (self.scratch.stride as u64, self.depth.to_usize() as u64);
        proof {
            lemma_product(y as int, stride as int);
            lemma_product(x as int, b as int);
        }
        y as u64 * stride + x as u64 * b <= self.scratch.pixels.len() as u64
    }

    /// Whether a frame with the pointer at a place can be drawn.
    pub fn can_render<F: Font, D: Decor<F>>(
        &self, mouse_x: u16, mouse_y: u16, conman: &ConsoleManager, font: &F, decor: &D,
    ) -> (r: bool)
        requires
            self.wf(),
            conman.wf(),
        ensures
            r == self.frame_ready(mouse_x, mouse_y, conman.consoles@, font, decor),
    {
        if decor.metrics() != self.metrics || mouse_x > self.fb.width || mouse_y > self.fb.height {
            return false;
        }
        if mouse_x == self.cursor_x && mouse_y == self.cursor_y && (mouse_x as u32
            + self.current_cursor.width as u32 > 0xffff || mouse_y as u32
            + self.current_cursor.height as u32 > 0xffff) {
            return false;
        }
        if !bar_ready(&self.topbar_state, font, self.fb.width, self.fb.height) {
            return false;
        }
        let (order, count): (Vec<usize>, usize) = self.collect_order();
        let window_count: usize = self.windows.len();
        proof { lemma_order_bounds(self.windows@, self.float_order@); }
        let mut i: usize = 0;
        while i < order.len()
            invariant
                i <= order@.len(),
                self.wf(),
                conman.wf(),
                decor.spec_metrics() == self.metrics,
                order@ == draw_order(self.windows@, self.float_order@),
                count == tiled_count(self.windows@),
                forall|k: int| 0 <= k < order@.len() ==> (#[trigger] order@[k])
                    < self.windows@.len(),
                forall|k: int| count <= k < order@.len() ==>
                    self.windows@[(#[trigger] order@[k]) as int].mode == WindowMode::Floating,
                forall|k: int| 0 <= k < count ==> {
                    let t = #[trigger] order@[k];
                    self.windows@[t as int].mode == WindowMode::Tiled
                        && tiled_before(self.windows@, t as int) == k
                },
                forall|k: int| 0 <= k < i ==> placeable(
                    self.scene(conman.consoles@), self.look(), font, decor,
                    (#[trigger] order@[k]) as int,
                ),
            decreases order@.len() - i,
        {
            if !self.window_ready(conman, font, decor, order[i], count, i) {
                assert(!placeable(
                    self.scene(conman.consoles@), self.look(), font, decor, order@[i as int] as int,
                ));
                return false;
            }
            i += 1;
        }
        true
    }
}

} // verus!
