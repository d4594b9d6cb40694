//! Bringing frames to the screen: copying, the pointer, and window drags.
use vstd::prelude::*;

use crate::bits::lesser;
use crate::console::compositor::{page_rounded, sat_sub, Compositor, DragRender, Window};
use crate::console::decor::Decor;
use crate::console::font::Font;
use crate::console::graphics::{
    copy_rows, lemma_rect_in_screen, lemma_rows_copied_len, pixel_written, regions_within,
    rows_copied, write_pixel, Frame, Framebuffer, Region, DESKTOP_BG,
};
use crate::console::manager::ConsoleManager;
use crate::console::scene::{
    all_placeable, draw_order, placeable, windows_drawn, zones_wf, Look, Scene,
};
use crate::console::screen::Console;
use crate::console::topbar::{
    bar_drawn, bar_fits, bar_on_screen, draw, lemma_bar_within, tab_zones, TopBarState,
    TOP_BAR_HEIGHT,
};
use crate::console::ui::{Ui, UiSurface};

verus! {

/// The screen after the first `n` regions were copied from the scratch buffer.
pub open spec fn blitted(screen: Frame, scratch: Frame, regions: Seq<Region>, bpp: int, n: nat) -> Frame
    decreases n,
{
    if n == 0 {
        screen
    } else {
        let prev = blitted(screen, scratch, regions, bpp, (n - 1) as nat);
        let r = regions[n - 1];
        restored(
            prev, scratch.pixels, r.x as int, r.y as int, r.width as int, r.height as int, bpp,
        )
    }
}

/// The first `n` pixels of a pointer row: the set ones are white.
pub open spec fn pointer_row(buf: Seq<u8>, at: int, bits: u16, bpp: int, n: nat) -> Seq<u8>
    decreases n,
{
    if n == 0 {
        buf
    } else {
        let prev = pointer_row(buf, at, bits, bpp, (n - 1) as nat);
        if (bits >> ((15 - (n - 1)) as u16)) & 1 == 1 {
            pixel_written(prev, at + (n - 1) * bpp, 0xFFFFFF, bpp)
        } else {
            prev
        }
    }
}

/// The first `n` rows of the pointer.
pub open spec fn pointer_rows(
    buf: Seq<u8>, at: int, stride: int, bitmap: Seq<u16>, cols: nat, bpp: int, n: nat,
) -> Seq<u8>
    decreases n,
{
    if n == 0 {
        buf
    } else {
        pointer_row(
            pointer_rows(buf, at, stride, bitmap, cols, bpp, (n - 1) as nat),
            at + (n - 1) * stride,
            bitmap[n - 1],
            bpp,
            cols,
        )
    }
}

/// Some region of the list touches `r`.
pub open spec fn any_touches(regions: Seq<Region>, r: Region) -> bool {
    exists|i: int| 0 <= i < regions.len() && (#[trigger] regions[i]).touches(&r)
}

/// How many of `h` rows from `y` on are above the bottom of the screen.
pub open spec fn rows_above(y: int, h: int, screen_h: int) -> int {
    lesser(h, sat_sub(screen_h, y))
}

/// The upper part of the scratch buffer as a surface for the top bar.
pub open spec fn bar_frame(scratch: Frame) -> Frame {
    Frame { height: 28, ..scratch }
}

/// The scene after the top bar was drawn.
pub open spec fn with_bar<F: Font>(s: Scene, st: TopBarState, font: &F, bpp: int) -> Scene {
    let ui = Ui { frame: bar_frame(s.frame), bpp, dirty: s.dirty };
    let sw = s.frame.width as int;
    let drawn = if st.stale() { bar_drawn(ui, st, font, sw) } else { ui };
    Scene {
        frame: s.frame.with(drawn.frame.pixels),
        dirty: drawn.dirty,
        zones: s.zones + tab_zones(sw),
        ..s
    }
}

proof fn lemma_pointer_row_len(buf: Seq<u8>, at: int, bits: u16, bpp: int, n: nat)
    ensures
        pointer_row(buf, at, bits, bpp, n).len() == buf.len(),
    decreases n,
{
    if n > 0 {
        lemma_pointer_row_len(buf, at, bits, bpp, (n - 1) as nat);
    }
}

/// Drawing depends on the shape of the frame, not on its bytes.
proof fn lemma_placeable_shape<F: Font, D: Decor<F>>(
    a: Scene, b: Scene, la: Look, lb: Look, font: &F, decor: &D, order: Seq<usize>,
    skip: Option<usize>,
)
    requires
        all_placeable(a, la, font, decor, order, None),
        b.windows == a.windows,
        b.consoles == a.consoles,
        b.frame.same_shape(a.frame),
        lb == (Look { force: lb.force, hover: lb.hover, ..la }),
        !lb.force ==> !la.force,
    ensures
        all_placeable(b, lb, font, decor, order, skip),
{
    assert forall|i: int| 0 <= i < order.len() && skip != Some(#[trigger] order[i]) implies placeable(
        b, lb, font, decor, order[i] as int,
    ) by {
        assert(placeable(a, la, font, decor, order[i] as int));
    }
}

/// The frame is a screen: it starts at byte 0 and has bytes for each pixel.
pub open spec fn is_screen(f: Frame, bpp: int) -> bool {
    f.origin == 0 && 0 < f.width && f.fits(0, 0, f.width as int, f.height as int, bpp)
}

/// The screen with a rectangle copied from the same place of another buffer.
pub open spec fn restored(screen: Frame, from: Seq<u8>, x: int, y: int, w: int, rows: int, bpp: int) -> Frame {
    let at = screen.at(x, y, bpp);
    screen.with(
        rows_copied(
            screen.pixels, at, screen.stride as int, from, at, screen.stride as int, w * bpp,
            rows as nat,
        ),
    )
}

/// Copy a rectangle of the scratch buffer to the same place of the screen.
fn restore_rect(fb: &mut Framebuffer, scratch: &Framebuffer, x: u16, y: u16, w: u16, rows: u16, bpp: usize)
    requires
        1 <= bpp <= 3,
        is_screen(old(fb)@, bpp as int),
        is_screen(scratch@, bpp as int),
        old(fb).width == scratch.width,
        old(fb).height == scratch.height,
        old(fb).stride == scratch.stride,
        x + w <= old(fb).width,
        rows > 0 ==> y + rows <= old(fb).height,
    ensures
        final(fb)@ == restored(
            old(fb)@, scratch.pixels@, x as int, y as int, w as int, rows as int, bpp as int,
        ),
        final(fb)@.same_shape(old(fb)@),
{
    if rows > 0 {
        let stride: usize = fb.stride as usize;
        proof {
            let (sw, sh) = (fb.width as int, fb.height as int);
            lemma_rect_in_screen(
                fb@, sw, sh, x as int, y as int, w as int, rows as int, bpp as int,
            );
            lemma_rect_in_screen(
                scratch@, sw, sh, x as int, y as int, w as int, rows as int, bpp as int,
            );
            assert(0 <= y * stride) by (nonlinear_arith) requires 0 <= y, 0 <= stride;
            assert(0 <= x * bpp) by (nonlinear_arith) requires 0 <= x, 0 <= bpp;
        }
        let capacity: usize = fb.pixels.len();
        let at: usize = y as usize * stride + x as usize * bpp;
        let length: usize = w as usize * bpp;
        proof {
            lemma_rows_copied_len(
                fb.pixels@, at as int, stride as int, scratch.pixels@, at as int, stride as int,
                length as int, rows as nat,
            );
        }
        copy_rows(
            fb.pixels.as_mut_slice(), at, stride, scratch.pixels.as_slice(), at, stride, length,
            rows as usize,
        );
    }
}

/// Copy the upper left part of a picture `pic_w` pixels wide to the screen.
fn show_picture(
    fb: &mut Framebuffer, picture: &Vec<u8>, pic_w: u16, pic_h: u16, x: u16, y: u16, w: u16, rows: u16,
    bpp: usize,
)
    requires
        1 <= bpp <= 3,
        is_screen(old(fb)@, bpp as int),
        x + w <= old(fb).width,
        rows > 0 ==> y + rows <= old(fb).height,
        w <= pic_w,
        rows <= pic_h,
        pic_w * bpp * pic_h <= picture@.len(),
    ensures
        final(fb)@ == old(fb)@.with(
            rows_copied(
                old(fb)@.pixels, old(fb)@.at(x as int, y as int, bpp as int), old(fb).stride as int,
                picture@, 0, pic_w * bpp, w * bpp, rows as nat,
            ),
        ),
        final(fb)@.same_shape(old(fb)@),
{
    if rows > 0 {
        let stride: usize = fb.stride as usize;
        let capacity: usize = fb.pixels.len();
        assert(0 <= pic_w * bpp <= 0xffff * 3) by (nonlinear_arith)
            requires 0 <= pic_w <= 0xffff, 1 <= bpp <= 3;
        let row_bytes: usize = pic_w as usize * bpp;
        proof {
            lemma_rect_in_screen(
                fb@, fb.width as int, fb.height as int, x as int, y as int, w as int, rows as int,
                bpp as int,
            );
            assert(0 <= y * stride) by (nonlinear_arith) requires 0 <= y, 0 <= stride;
            assert(0 <= x * bpp) by (nonlinear_arith) requires 0 <= x, 0 <= bpp;
            assert((rows - 1) * row_bytes + w * bpp <= pic_w * bpp * pic_h) by (nonlinear_arith)
                requires
                    row_bytes == pic_w * bpp,
                    0 <= row_bytes,
                    rows <= pic_h,
                    w <= pic_w,
                    0 <= bpp;
        }
        let at: usize = y as usize * stride + x as usize * bpp;
        let length: usize = w as usize * bpp;
        proof {
            lemma_rows_copied_len(
                fb.pixels@, at as int, stride as int, picture@, 0, row_bytes as int, length as int,
                rows as nat,
            );
        }
        copy_rows(
            fb.pixels.as_mut_slice(), at, stride, picture.as_slice(), 0, row_bytes, length,
            rows as usize,
        );
    }
}

/// Draw the pointer on the screen, its upper left `cols` by `rows` pixels.
fn show_pointer(fb: &mut Framebuffer, bitmap: &Vec<u16>, x: u16, y: u16, cols: u16, rows: u16, bpp: usize)
    requires
        1 <= bpp <= 3,
        is_screen(old(fb)@, bpp as int),
        x + cols <= old(fb).width,
        rows > 0 ==> y + rows <= old(fb).height,
        cols <= 16,
        rows <= bitmap@.len(),
    ensures
        final(fb)@ == old(fb)@.with(
            pointer_rows(
                old(fb)@.pixels, old(fb)@.at(x as int, y as int, bpp as int), old(fb).stride as int,
                bitmap@, cols as nat, bpp as int, rows as nat,
            ),
        ),
        final(fb)@.same_shape(old(fb)@),
{
    if rows > 0 {
        let stride: usize = fb.stride as usize;
        let capacity: usize = fb.pixels.len();
        proof {
            lemma_rect_in_screen(
                fb@, fb.width as int, fb.height as int, x as int, y as int, cols as int, rows as int,
                bpp as int,
            );
            assert(0 <= y * stride) by (nonlinear_arith) requires 0 <= y, 0 <= stride;
            assert(0 <= x * bpp) by (nonlinear_arith) requires 0 <= x, 0 <= bpp;
        }
        let start: usize = y as usize * stride + x as usize * bpp;
        draw_pointer(&mut fb.pixels, start, stride, bitmap, cols as usize, rows as usize, bpp);
    }
}

impl Compositor {
    /// The pointer has to be drawn: it moved, or something was drawn over it.
    pub open spec fn pointer_stale(&self, x: u16, y: u16) -> bool {
        x != self.cursor_x || y != self.cursor_y || any_touches(
            self.dirty_regions@, self.pointer_region(x, y),
        )
    }

    pub open spec fn pointer_region(&self, x: u16, y: u16) -> Region {
        Region { x, y, width: self.current_cursor.width, height: self.current_cursor.height }
    }

    /// The screen with the pointer taken off where it was.
    pub open spec fn pointer_removed(&self, screen: Frame) -> Frame {
        let cols = lesser(self.current_cursor.width as int, self.fb.width - self.cursor_x);
        let rows = lesser(self.current_cursor.height as int, self.fb.height - self.cursor_y);
        restored(
            screen, self.scratch@.pixels, self.cursor_x as int, self.cursor_y as int, cols, rows,
            self.bpp(),
        )
    }

    /// The screen with the pointer drawn at `(x, y)`.
    pub open spec fn pointer_drawn(&self, screen: Frame, x: u16, y: u16) -> Frame {
        let bpp = self.bpp();
        let cols = lesser(self.current_cursor.width as int, self.fb.width - x);
        let rows = lesser(self.current_cursor.height as int, self.fb.height - y);
        screen.with(
            pointer_rows(
                screen.pixels, screen.at(x as int, y as int, bpp), screen.stride as int,
                self.current_cursor.bitmap@, cols as nat, bpp, rows as nat,
            ),
        )
    }

    /// The screen after the pointer was brought to `(x, y)`.
    pub open spec fn pointer_moved(&self, screen: Frame, x: u16, y: u16) -> Frame {
        if self.pointer_stale(x, y) {
            self.pointer_drawn(self.pointer_removed(screen), x, y)
        } else {
            screen
        }
    }

    /// Copy the dirty regions of the scratch buffer to the screen.
    pub fn blit_scratch_to_fb(&mut self)
        requires
            old(self).wf(),
            regions_within(
                old(self).dirty_regions@, old(self).fb.width as int, old(self).fb.height as int,
            ),
        ensures
            final(self).wf(),
            final(self).fb@ == blitted(
                old(self).fb@, old(self).scratch@, old(self).dirty_regions@, old(self).bpp(),
                old(self).dirty_regions@.len(),
            ),
            final(self).fb@.same_shape(old(self).fb@),
            *final(self) == (Compositor { fb: final(self).fb, ..*old(self) }),
    {
        let bpp: usize = self.depth.to_usize();
        let ghost screen = self.fb@;
        let mut i: usize = 0;
        while i < self.dirty_regions.len()
            invariant
                i <= self.dirty_regions@.len(),
                self.wf(),
                *self == (Compositor { fb: self.fb, ..*old(self) }),
                self.fb@.same_shape(screen),
                screen == old(self).fb@,
                bpp == old(self).bpp(),
                1 <= bpp <= 3,
                regions_within(
                    self.dirty_regions@, old(self).fb.width as int, old(self).fb.height as int,
                ),
                self.fb@ == blitted(
                    screen, self.scratch@, self.dirty_regions@, bpp as int, i as nat,
                ),
            decreases self.dirty_regions@.len() - i,
        {
            let r: Region = self.dirty_regions[i];
            restore_rect(&mut self.fb, &self.scratch, r.x, r.y, r.width, r.height, bpp);
            i += 1;
        }
    }

    /// Bring the pointer to a new place. The background behind it comes from the
    /// scratch buffer, which never holds the pointer.
    pub fn redraw_cursor(&mut self, new_x: u16, new_y: u16)
        requires
            old(self).wf(),
            new_x <= old(self).fb.width,
            new_y <= old(self).fb.height,
            new_x == old(self).cursor_x && new_y == old(self).cursor_y ==> old(self).pointer_region(
                new_x, new_y,
            ).wf(),
        ensures
            final(self).wf(),
            final(self).fb@ == old(self).pointer_moved(old(self).fb@, new_x, new_y),
            final(self).fb@.same_shape(old(self).fb@),
            final(self).cursor_x == new_x,
            final(self).cursor_y == new_y,
            *final(self) == (Compositor {
                fb: final(self).fb,
                cursor_x: new_x,
                cursor_y: new_y,
                ..*old(self)
            }),
    {
        let region: Region = Region {
            x: new_x,
            y: new_y,
            width: self.current_cursor.width,
            height: self.current_cursor.height,
        };
        if new_x == self.cursor_x && new_y == self.cursor_y {
            let mut needs_redraw: bool = false;
            let mut i: usize = 0;
            while i < self.dirty_regions.len() && !needs_redraw
                invariant
                    i <= self.dirty_regions@.len(),
                    self.wf(),
                    *self == *old(self),
                    region.wf(),
                    needs_redraw ==> any_touches(self.dirty_regions@, region),
                    !needs_redraw ==> forall|k: int| 0 <= k < i ==>
                        !(#[trigger] self.dirty_regions@[k]).touches(&region),
                decreases self.dirty_regions@.len() - i,
            {
                if self.dirty_regions[i].intersects(&region) {
                    needs_redraw = true;
                }
                i += 1;
            }
            if !needs_redraw {
                return;
            }
        }
        assert(self.pointer_stale(new_x, new_y));
        let bpp: usize = self.depth.to_usize();
        let (sw, sh): (u16, u16) = (self.fb.width, self.fb.height);
        let cw: u16 = self.current_cursor.width;
        let chh: u16 = self.current_cursor.height;
        let clear_rows: u16 = if chh <= sh - self.cursor_y { chh } else { sh - self.cursor_y };
        let clear_cols: u16 = if cw <= sw - self.cursor_x { cw } else { sw - self.cursor_x };
        restore_rect(
            &mut self.fb, &self.scratch, self.cursor_x, self.cursor_y, clear_cols, clear_rows, bpp,
        );
        let rows: u16 = if chh <= sh - new_y { chh } else { sh - new_y };
        let cols: u16 = if cw <= sw - new_x { cw } else { sw - new_x };
        show_pointer(&mut self.fb, &self.current_cursor.bitmap, new_x, new_y, cols, rows, bpp);
        self.cursor_x = new_x;
        self.cursor_y = new_y;
    }

    /// Draw the top bar into the scratch buffer.
    fn draw_bar<F: Font>(&mut self, font: &F)
        requires
            old(self).wf(),
            zones_wf(old(self).hit_map@),
            bar_fits(old(self).topbar_state, font, old(self).fb.width as int),
        ensures
            final(self).wf(),
            zones_wf(final(self).hit_map@),
            forall|consoles: Seq<Console>| #[trigger] final(self).scene(consoles) == with_bar(
                old(self).scene(consoles), old(self).topbar_state, font, old(self).bpp(),
            ),
            final(self).scratch@.same_shape(old(self).scratch@),
            final(self).topbar_state@ == old(self).topbar_state@.shown(),
            final(self).topbar_state.hover == old(self).topbar_state.hover,
            final(self).windows == old(self).windows,
            *final(self) == (Compositor {
                scratch: final(self).scratch,
                dirty_regions: final(self).dirty_regions,
                hit_map: final(self).hit_map,
                topbar_state: final(self).topbar_state,
                ..*old(self)
            }),
            regions_within(
                old(self).dirty_regions@, old(self).fb.width as int, old(self).fb.height as int,
            ) && bar_on_screen(
                old(self).topbar_state, font, old(self).fb.width as int, old(self).fb.height as int,
            ) ==> regions_within(
                final(self).dirty_regions@, old(self).fb.width as int, old(self).fb.height as int,
            ),
    {
        let screen_width: u16 = self.fb.width;
        let screen_height: u16 = self.fb.height;
        let ghost f0 = self.scratch@;
        let ghost d0 = self.dirty_regions@;
        let bpp: usize = self.depth.to_usize();
        let mut pixels: Vec<u8> = Vec::new();
        core::mem::swap(&mut pixels, &mut self.scratch.pixels);
        let mut dirty: Vec<Region> = Vec::new();
        core::mem::swap(&mut dirty, &mut self.dirty_regions);
        let fb: Framebuffer = Framebuffer {
            width: screen_width,
            height: TOP_BAR_HEIGHT,
            stride: self.fb.stride,
            origin: 0,
            pixels,
        };
        let mut surface: UiSurface = UiSurface::new(fb, bpp, dirty);
        let ghost ui = surface@;
        proof {
            crate::console::graphics::lemma_sub_block_fits(
                f0, 0, 0, screen_width as int, screen_height as int, 0, 0, screen_width as int, 28,
                bpp as int,
            );
            assert(ui == (Ui { frame: bar_frame(f0), bpp: bpp as int, dirty: d0 }));
            if regions_within(d0, screen_width as int, screen_height as int) && bar_on_screen(
                self.topbar_state, font, screen_width as int, screen_height as int,
            ) {
                lemma_bar_within(
                    ui, self.topbar_state, font, screen_width as int, screen_height as int,
                );
            }
        }
        draw(&mut surface, &mut self.hit_map, &mut self.topbar_state, font, screen_width);
        self.scratch.pixels = surface.fb.pixels;
        self.dirty_regions = surface.dirty;
        assert forall|consoles: Seq<Console>| #[trigger] self.scene(consoles) == with_bar(
            old(self).scene(consoles), old(self).topbar_state, font, old(self).bpp(),
        ) by {
            assert(self.scratch@ == f0.with(surface@.frame.pixels));
        }
    }

    /// What is drawn of a new frame before its windows: the desktop if all is to
    /// be redrawn, and the top bar.
    pub open spec fn frame_start<F: Font>(&self, consoles: Seq<Console>, font: &F) -> Scene {
        let st = self.topbar_state;
        let cleared = Scene { dirty: Seq::empty(), zones: Seq::empty(), ..self.scene(consoles) };
        let (sw, sh) = (self.fb.width, self.fb.height);
        if self.force_redraw {
            with_bar(
                Scene {
                    frame: cleared.frame.filled(0, 0, sw as int, sh as int, DESKTOP_BG, self.bpp()),
                    dirty: seq![Region { x: 0, y: 0, width: sw, height: sh }],
                    ..cleared
                },
                TopBarState { needs_full_draw: true, ..st },
                font,
                self.bpp(),
            )
        } else {
            with_bar(cleared, st, font, self.bpp())
        }
    }

    /// The scene of a new frame.
    pub open spec fn frame_scene<F: Font, D: Decor<F>>(
        &self, consoles: Seq<Console>, font: &F, decor: &D,
    ) -> Scene {
        let order = draw_order(self.windows@, self.float_order@);
        windows_drawn(
            self.frame_start(consoles, font), self.look(), font, decor, order, None, order.len(),
        )
    }

    /// All of a frame lies on the screen and in the buffers: the pointer, the bar and each
    /// window.
    pub open spec fn frame_ready<F: Font, D: Decor<F>>(
        &self, mouse_x: u16, mouse_y: u16, consoles: Seq<Console>, font: &F, decor: &D,
    ) -> bool {
        &&& decor.spec_metrics() == self.metrics
        &&& mouse_x <= self.fb.width
        &&& mouse_y <= self.fb.height
        &&& mouse_x == self.cursor_x && mouse_y == self.cursor_y ==> self.pointer_region(
            mouse_x, mouse_y,
        ).wf()
        &&& bar_fits(self.topbar_state, font, self.fb.width as int)
        &&& bar_on_screen(
            self.topbar_state, font, self.fb.width as int, self.fb.height as int,
        )
        &&& all_placeable(
            self.scene(consoles), self.look(), font, decor,
            draw_order(self.windows@, self.float_order@), None,
        )
    }

    /// Draw a frame: background, top bar, windows; copy what changed to the screen
    /// and bring the pointer to the mouse.
    pub fn render<F: Font, D: Decor<F>>(
        &mut self, mouse_x: u16, mouse_y: u16, conman: &mut ConsoleManager, font: &F, decor: &D,
    )
        requires
            old(self).wf(),
            old(self).frame_ready(mouse_x, mouse_y, old(conman).consoles@, font, decor),
        ensures
            final(self).wf(),
            zones_wf(final(self).hit_map@),
            final(self).scene(final(conman).consoles@) == old(self).frame_scene(
                old(conman).consoles@, font, decor,
            ),
            ({
                let scene = old(self).frame_scene(old(conman).consoles@, font, decor);
                let copied = blitted(
                    old(self).fb@, scene.frame, scene.dirty, old(self).bpp(), scene.dirty.len(),
                );
                final(self).fb@ == final(self).pointer_shown(
                    copied, old(self).cursor_x, old(self).cursor_y, mouse_x, mouse_y,
                )
            }),
            !final(self).topbar_state.stale(),
            final(self).topbar_state@ == old(self).topbar_state@.shown(),
            *final(self) == (Compositor {
                fb: final(self).fb,
                scratch: final(self).scratch,
                windows: final(self).windows,
                dirty_regions: final(self).dirty_regions,
                hit_map: final(self).hit_map,
                topbar_state: final(self).topbar_state,
                force_redraw: false,
                cursor_x: mouse_x,
                cursor_y: mouse_y,
                ..*old(self)
            }),
            *final(conman) == (ConsoleManager { consoles: final(conman).consoles, ..*old(conman) }),
    {
        let ghost s0 = self.scene(conman.consoles@);
        let ghost order = draw_order(self.windows@, self.float_order@);
        let ghost look0 = self.look();
        self.dirty_regions.clear();
        self.hit_map.clear();
        assert(self.dirty_regions@ =~= Seq::empty());
        if self.force_redraw {
            let full: Region = Region { x: 0, y: 0, width: self.fb.width, height: self.fb.height };
            self.draw_bg(full);
            self.dirty_regions.push(full);
            self.topbar_state.needs_full_draw = true;
            assert(self.dirty_regions@ =~= seq![full]);
        }
        let ghost st = self.topbar_state;
        assert(st.name() =~= old(self).topbar_state.name());
        let ghost before_bar = self.scene(conman.consoles@);
        self.draw_bar(font);
        proof {
            assert(self.scene(conman.consoles@) == with_bar(before_bar, st, font, self.bpp()));
            assert(self.scene(conman.consoles@) == old(self).frame_start(old(conman).consoles@, font));
            lemma_placeable_shape(
                s0, self.scene(conman.consoles@), look0, self.look(), font, decor, order, None,
            );
            crate::console::topbar::drawn_bar_is_not_stale(st, self.topbar_state);
        }
        self.draw_windows(conman, font, decor);
        let ghost scene = self.scene(conman.consoles@);
        self.blit_scratch_to_fb();
        let ghost copied = self.fb@;
        let ghost c = *self;
        self.redraw_cursor(mouse_x, mouse_y);
        self.force_redraw = false;
    }

    /// The screen after the pointer went from one place to another.
    pub open spec fn pointer_shown(&self, screen: Frame, from_x: u16, from_y: u16, x: u16, y: u16) -> Frame {
        (Compositor { cursor_x: from_x, cursor_y: from_y, ..*self }).pointer_moved(screen, x, y)
    }

    /// How many bytes the picture of a window takes, in whole pages.
    pub open spec fn snapshot_size(&self, idx: int) -> int {
        let w = self.windows@[idx];
        page_rounded(
            (w.last_width + self.metrics.extra_w) * self.bpp() * (w.last_height
                + self.metrics.extra_h),
        )
    }

    /// The memory that a drag of window `idx` needs for its picture.
    pub fn drag_snapshot_size(&self, idx: usize) -> (r: Option<usize>)
        requires
            self.wf(),
            idx < self.windows@.len() ==> {
                let w = self.windows@[idx as int];
                &&& w.last_width + self.metrics.extra_w <= u16::MAX
                &&& w.last_height + self.metrics.extra_h <= u16::MAX
                &&& self.snapshot_size(idx as int) <= usize::MAX
            },
        ensures
            r == (if idx < self.windows@.len() {
                Some(self.snapshot_size(idx as int) as usize)
            } else {
                None
            }),
    {
        if idx >= self.windows.len() {
            return None;
        }
        let w: u64 = (self.windows[idx].last_width + self.metrics.extra_w) as u64;
        let h: u64 = (self.windows[idx].last_height + self.metrics.extra_h) as u64;
        let bpp: u64 = self.depth.to_usize() as u64;
        assert(0 <= w * bpp <= 0xffff * 3) by (nonlinear_arith)
            requires 0 <= w <= 0xffff, 1 <= bpp <= 3;
        assert(0 <= w * bpp * h <= 0xffff * 3 * 0xffff) by (nonlinear_arith)
            requires 0 <= w * bpp <= 0xffff * 3, 0 <= h <= 0xffff;
        let total: u64 = w * bpp * h;
        let pages: u64 = (total + 0xfff) / 0x1000;
        Some((pages * 0x1000) as usize)
    }

    /// The scene behind a window that is dragged: the desktop, the top bar and all
    /// the other windows, drawn anew over a full frame.
    pub open spec fn backdrop<F: Font, D: Decor<F>>(
        &self, consoles: Seq<Console>, font: &F, decor: &D, idx: usize,
    ) -> (Scene, Scene) {
        let order = draw_order(self.windows@, self.float_order@);
        let look = Look { force: true, ..self.look() };
        let with_window = windows_drawn(
            self.scene(consoles), look, font, decor, order, None, order.len(),
        );
        let cleared = Scene {
            frame: with_window.frame.filled(
                0, 0, self.fb.width as int, self.fb.height as int, DESKTOP_BG, self.bpp(),
            ),
            ..with_window
        };
        let barred = with_bar(
            cleared, TopBarState { needs_full_draw: true, ..self.topbar_state }, font, self.bpp(),
        );
        (
            with_window,
            windows_drawn(barred, look, font, decor, order, Some(idx), order.len()),
        )
    }

    /// The rows of a window that lie on the screen are in the scratch buffer, whole.
    pub open spec fn window_rows_in_scratch(&self, w: Window) -> bool {
        let rows = rows_above(
            w.y as int, w.last_height + self.metrics.extra_h, self.fb.height as int,
        );
        rows > 0 ==> (w.y + rows - 1) * self.fb.stride + w.x * self.bpp() + (w.last_width
            + self.metrics.extra_w) * self.bpp() <= self.scratch.pixels@.len()
    }

    /// Begin a fast drag of a window: take a picture of it, and draw the scene
    /// without it. `memory` is what could be had for the picture.
    pub fn begin_drag<F: Font, D: Decor<F>>(
        &mut self, idx: usize, conman: &mut ConsoleManager, font: &F, decor: &D,
        memory: Option<Vec<u8>>,
    )
        requires
            old(self).wf(),
            decor.spec_metrics() == old(self).metrics,
            zones_wf(old(self).hit_map@),
            idx < old(self).windows@.len() && memory.is_some() ==> {
                let w = old(self).windows@[idx as int];
                let m = old(self).metrics;
                &&& w.last_width + m.extra_w <= u16::MAX
                &&& w.last_height + m.extra_h <= u16::MAX
                &&& memory.unwrap()@.len() == old(self).snapshot_size(idx as int)
                &&& old(self).window_rows_in_scratch(w)
                &&& bar_fits(old(self).topbar_state, font, old(self).fb.width as int)
                &&& all_placeable(
                    old(self).scene(old(conman).consoles@), Look { force: true, ..old(self).look() },
                    font, decor, draw_order(old(self).windows@, old(self).float_order@), None,
                )
            },
        ensures
            final(self).wf(),
            zones_wf(final(self).hit_map@),
            idx >= old(self).windows@.len() || memory.is_none() ==> *final(self) == *old(self)
                && *final(conman) == *old(conman),
            idx < old(self).windows@.len() && memory.is_some() ==> {
                let w = old(self).windows@[idx as int];
                let m = old(self).metrics;
                let (pictured, behind) = old(self).backdrop(old(conman).consoles@, font, decor, idx);
                let row = (w.last_width + m.extra_w) * old(self).bpp();
                &&& final(self).scene(final(conman).consoles@) == behind
                &&& final(self).force_redraw
                &&& !final(self).topbar_state.stale()
                &&& final(self).topbar_state@ == old(self).topbar_state@.shown()
                &&& final(self).drag_render matches Some(d)
                    && d.window_idx == idx && d.snap_w == w.last_width + m.extra_w
                    && d.snap_h == w.last_height + m.extra_h && d.prev_x == w.x && d.prev_y == w.y
                    && d.snapshot@ == rows_copied(
                        memory.unwrap()@, 0, row, pictured.frame.pixels,
                        pictured.frame.at(w.x as int, w.y as int, old(self).bpp()),
                        old(self).fb.stride as int, row,
                        rows_above(
                            w.y as int, w.last_height + m.extra_h, old(self).fb.height as int,
                        ) as nat,
                    )
            },
            *final(self) == (Compositor {
                scratch: final(self).scratch,
                windows: final(self).windows,
                dirty_regions: final(self).dirty_regions,
                hit_map: final(self).hit_map,
                topbar_state: final(self).topbar_state,
                force_redraw: final(self).force_redraw,
                drag_render: final(self).drag_render,
                ..*old(self)
            }),
            *final(conman) == (ConsoleManager { consoles: final(conman).consoles, ..*old(conman) }),
    {
        if idx >= self.windows.len() {
            return;
        }
        let mut snapshot: Vec<u8> = match memory {
            Some(v) => v,
            None => {
                return;
            }
        };
        let window: Window = self.windows[idx];
        let ghost order = draw_order(self.windows@, self.float_order@);
        let ghost look = Look { force: true, ..self.look() };
        let snap_w: u16 = window.last_width + self.metrics.extra_w;
        let snap_h: u16 = window.last_height + self.metrics.extra_h;
        let bpp: usize = self.depth.to_usize();
        let win_x: u16 = window.x;
        let win_y: u16 = window.y;

        self.force_redraw = true;
        self.draw_windows(conman, font, decor);
        let ghost pictured = self.scene(conman.consoles@);

        let stride: usize = self.fb.stride as usize;
        let room: u16 = self.fb.height.saturating_sub(win_y);
        let rows: u16 = if snap_h <= room { snap_h } else { room };
        assert(0 <= snap_w * bpp <= 0xffff * 3) by (nonlinear_arith)
            requires 0 <= snap_w <= 0xffff, 1 <= bpp <= 3;
        let row_bytes: usize = snap_w as usize * bpp;
        if rows > 0 {
            proof {
                let last = win_y + rows - 1;
                assert(last * stride == win_y * stride + (rows - 1) * stride) by (nonlinear_arith)
                    requires last == win_y + rows - 1;
                assert(0 <= (rows - 1) * stride) by (nonlinear_arith)
                    requires 0 < rows, 0 <= stride;
                assert(0 <= win_y * stride) by (nonlinear_arith)
                    requires 0 <= win_y, 0 <= stride;
                assert(0 <= win_x * bpp) by (nonlinear_arith) requires 0 <= win_x, 0 <= bpp;
                assert((rows - 1) * row_bytes + row_bytes <= snap_w * bpp * snap_h)
                    by (nonlinear_arith)
                    requires row_bytes == snap_w * bpp, 0 <= row_bytes, rows <= snap_h;
            }
            let capacity: usize = self.scratch.pixels.len();
            let src: usize = win_y as usize * stride + win_x as usize * bpp;
            copy_rows(
                snapshot.as_mut_slice(), 0, row_bytes, self.scratch.pixels.as_slice(), src, stride,
                row_bytes, rows as usize,
            );
        }

        let full: Region = Region { x: 0, y: 0, width: self.fb.width, height: self.fb.height };
        self.draw_bg(full);
        self.topbar_state.needs_full_draw = true;
        let ghost st = self.topbar_state;
        assert(st.name() =~= old(self).topbar_state.name());
        self.draw_bar(font);
        proof {
            lemma_placeable_shape(
                pictured, self.scene(conman.consoles@), look, self.look(), font, decor, order,
                Some(idx),
            );
            lemma_same_order(old(self).windows@, self.windows@, self.float_order@);
            crate::console::topbar::drawn_bar_is_not_stale(st, self.topbar_state);
        }
        self.draw_windows_inner(conman, font, decor, Some(idx));
        self.drag_render = Some(
            DragRender { window_idx: idx, snapshot, snap_w, snap_h, prev_x: win_x, prev_y: win_y },
        );
    }

    /// The screen after a drag frame: the background where the window was, then
    /// the picture of the window where it is, cut at the screen's edges.
    pub open spec fn dragged(&self, d: DragRender) -> Frame {
        let bpp = self.bpp();
        let f = self.fb@;
        let stride = f.stride as int;
        let w = self.windows@[d.window_idx as int];
        let bare = restored(
            f, self.scratch@.pixels, d.prev_x as int, d.prev_y as int,
            lesser(d.snap_w as int, f.width - d.prev_x),
            rows_above(d.prev_y as int, d.snap_h as int, f.height as int), bpp,
        );
        f.with(
            rows_copied(
                bare.pixels, f.at(w.x as int, w.y as int, bpp), stride, d.snapshot@, 0, d.snap_w * bpp,
                lesser(d.snap_w as int, f.width - w.x) * bpp,
                rows_above(w.y as int, d.snap_h as int, f.height as int) as nat,
            ),
        )
    }

    /// The drag refers to a window on screen and holds its whole picture.
    pub open spec fn drag_wf(&self, d: DragRender) -> bool {
        &&& d.window_idx < self.windows@.len()
        &&& d.prev_x <= self.fb.width
        &&& self.windows@[d.window_idx as int].x <= self.fb.width
        &&& d.snap_w * self.bpp() * d.snap_h <= d.snapshot@.len()
    }

    /// Show a frame of a drag.
    pub fn render_drag(&mut self, mouse_x: u16, mouse_y: u16)
        requires
            old(self).wf(),
            old(self).drag_render matches Some(d) ==> {
                &&& old(self).drag_wf(d)
                &&& mouse_x <= old(self).fb.width
                &&& mouse_y <= old(self).fb.height
                &&& mouse_x == old(self).cursor_x && mouse_y == old(self).cursor_y
                    ==> old(self).pointer_region(mouse_x, mouse_y).wf()
            },
        ensures
            final(self).wf(),
            old(self).drag_render.is_none() ==> *final(self) == *old(self),
            old(self).drag_render matches Some(d) ==> {
                let w = old(self).windows@[d.window_idx as int];
                &&& final(self).fb@ == old(self).pointer_moved(old(self).dragged(d), mouse_x, mouse_y)
                &&& final(self).drag_render == Some(DragRender { prev_x: w.x, prev_y: w.y, ..d })
                &&& final(self).cursor_x == mouse_x
                &&& final(self).cursor_y == mouse_y
            },
            *final(self) == (Compositor {
                fb: final(self).fb,
                drag_render: final(self).drag_render,
                cursor_x: final(self).cursor_x,
                cursor_y: final(self).cursor_y,
                ..*old(self)
            }),
    {
        let mut drag: DragRender = match self.drag_render.take() {
            Some(d) => d,
            None => {
                return;
            }
        };
        let ghost d0 = drag;
        let bpp: usize = self.depth.to_usize();
        let (sw, sh): (u16, u16) = (self.fb.width, self.fb.height);
        let window: Window = self.windows[drag.window_idx];

        let old_room: u16 = sh.saturating_sub(drag.prev_y);
        let old_rows: u16 = if drag.snap_h <= old_room { drag.snap_h } else { old_room };
        let old_w: u16 = if drag.snap_w <= sw - drag.prev_x { drag.snap_w } else { sw - drag.prev_x };
        restore_rect(
            &mut self.fb, &self.scratch, drag.prev_x, drag.prev_y, old_w, old_rows, bpp,
        );

        let new_room: u16 = sh.saturating_sub(window.y);
        let new_rows: u16 = if drag.snap_h <= new_room { drag.snap_h } else { new_room };
        let new_w: u16 = if drag.snap_w <= sw - window.x { drag.snap_w } else { sw - window.x };
        show_picture(
            &mut self.fb, &drag.snapshot, drag.snap_w, drag.snap_h, window.x, window.y, new_w,
            new_rows, bpp,
        );
        drag.prev_x = window.x;
        drag.prev_y = window.y;
        self.drag_render = Some(drag);
        assert(self.fb@ == old(self).dragged(d0));
        self.redraw_cursor(mouse_x, mouse_y);
    }
}

/// Windows in the same places are drawn in the same order.
proof fn lemma_same_order(a: Seq<Window>, b: Seq<Window>, order: Seq<usize>)
    requires
        crate::console::scene::same_places(b, a),
    ensures
        draw_order(a, order) == draw_order(b, order),
{
    lemma_same_tiled(a, b, a.len() as int);
}

proof fn lemma_same_tiled(a: Seq<Window>, b: Seq<Window>, n: int)
    requires
        crate::console::scene::same_places(b, a),
        n <= a.len(),
    ensures
        crate::console::scene::tiled_list(a, n) == crate::console::scene::tiled_list(b, n),
    decreases n,
{
    if n > 0 {
        lemma_same_tiled(a, b, n - 1);
    }
}

/// Draw the pointer at byte `start`.
fn draw_pointer(
    pixels: &mut Vec<u8>, start: usize, stride: usize, bitmap: &Vec<u16>, cols: usize, rows: usize,
    bpp: usize,
)
    requires
        1 <= bpp <= 3,
        cols <= 16,
        0 < rows <= bitmap@.len(),
        start + (rows - 1) * stride + cols * bpp <= old(pixels)@.len(),
    ensures
        final(pixels)@ == pointer_rows(
            old(pixels)@, start as int, stride as int, bitmap@, cols as nat, bpp as int, rows as nat,
        ),
        final(pixels)@.len() == old(pixels)@.len(),
{
    let capacity: usize = pixels.len();
    let mut row: usize = 0;
    while row < rows
        invariant
            row <= rows,
            1 <= bpp <= 3,
            cols <= 16,
            0 < rows <= bitmap@.len(),
            start + (rows - 1) * stride + cols * bpp <= capacity,
            pixels@.len() == capacity,
            capacity == old(pixels)@.len(),
            pixels@ == pointer_rows(
                old(pixels)@, start as int, stride as int, bitmap@, cols as nat, bpp as int,
                row as nat,
            ),
        decreases rows - row,
    {
        assert(row * stride <= (rows - 1) * stride) by (nonlinear_arith)
            requires row <= rows - 1, 0 <= stride;
        assert(0 <= row * stride) by (nonlinear_arith) requires 0 <= row, 0 <= stride;
        assert(0 <= cols * bpp) by (nonlinear_arith) requires 0 <= cols, 0 <= bpp;
        let at: usize = start + row * stride;
        let bits: u16 = bitmap[row];
        let ghost before = pixels@;
        let mut col: usize = 0;
        while col < cols
            invariant
                col <= cols <= 16,
                1 <= bpp <= 3,
                at + cols * bpp <= capacity,
                pixels@.len() == capacity,
                before.len() == capacity,
                pixels@ == pointer_row(before, at as int, bits, bpp as int, col as nat),
            decreases cols - col,
        {
            assert((col + 1) * bpp == col * bpp + bpp) by (nonlinear_arith);
            assert((col + 1) * bpp <= cols * bpp) by (nonlinear_arith) requires col + 1 <= cols;
            assert(0 <= col * bpp) by (nonlinear_arith) requires 0 <= col, 0 <= bpp;
            let shift: u16 = 15 - col as u16;
            if (bits >> shift) & 1 == 1 {
                write_pixel(pixels.as_mut_slice(), at + col * bpp, 0xFFFFFF, bpp);
            }
            col += 1;
            proof { lemma_pointer_row_len(before, at as int, bits, bpp as int, col as nat); }
        }
        row += 1;
    }
}

} // verus!
