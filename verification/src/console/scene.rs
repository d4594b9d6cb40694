//! Drawing the windows of the compositor into the scratch buffer.
use vstd::prelude::*;

use crate::bits::lesser;
use crate::console::compositor::{
    lemma_tiled_prefix, order_matches, tiled_before, tiled_count,
    windows_wf, Compositor, Window, WindowMode,
};
use crate::console::decor::{Decor, DecorMetrics};
use crate::console::font::Font;
use crate::console::graphics::{
    add_dirty_region, dirty_with, lemma_sub_block_fits, regions_within, Frame, Region,
    DESKTOP_BG,
};
use crate::console::hit::{HitTarget, HitZone, ScrollDirection};
use crate::console::manager::ConsoleManager;
use crate::console::screen::Console;
use crate::console::scrollbar::at_least_arrow;
use crate::console::topbar::TOP_BAR_HEIGHT;
use crate::console::window::{
    arrows_fit, char_width, console_shown, lemma_drawn_reports, text_layout, window_drawn, window_fits, Drawn, ScrollbarInfo, WindowStyle,
};

verus! {

/// What the look of the windows depends on besides the windows.
pub struct Look {
    pub screen_w: int,
    pub screen_h: int,
    pub bpp: int,
    pub force: bool,
    pub focused: usize,
    pub hover: Option<HitTarget>,
}

/// What drawing windows changes.
pub struct Scene {
    pub frame: Frame,
    pub windows: Seq<Window>,
    pub consoles: Seq<Console>,
    pub dirty: Seq<Region>,
    pub zones: Seq<HitZone>,
}

/// The place of a tile: one window fills the desktop; two share it one above the
/// other; of three the first has the upper half and the others a quarter each;
/// four have a quarter each. Left, top, content width, content height.
pub open spec fn tile(look: Look, m: DecorMetrics, count: int, pos: int) -> (int, int, int, int) {
    let desk = look.screen_h - 28;
    let full_w = look.screen_w - m.extra_w;
    let half_w = look.screen_w / 2 - m.extra_w;
    let half_h = desk / 2 - m.extra_h;
    if count <= 1 {
        (0, 28, full_w, desk - m.extra_h)
    } else if count == 2 {
        (0, 28 + pos * (desk / 2), full_w, half_h)
    } else if count == 3 {
        if pos == 0 {
            (0, 28, full_w, half_h)
        } else {
            ((pos - 1) * (look.screen_w / 2), 28 + desk / 2, half_w, half_h)
        }
    } else {
        ((pos % 2) * (look.screen_w / 2), 28 + (pos / 2) * (desk / 2), half_w, half_h)
    }
}

/// The place of a window: left, top, content width, content height.
pub open spec fn place(windows: Seq<Window>, look: Look, m: DecorMetrics, idx: int) -> (
    int,
    int,
    int,
    int,
) {
    match windows[idx].mode {
        WindowMode::Tiled => tile(look, m, tiled_count(windows), tiled_before(windows, idx)),
        WindowMode::Floating => (windows[idx].x as int, windows[idx].y as int, 640, 400),
    }
}

/// The part of a frame whose origin is the pixel at `(x, y)`.
pub open spec fn sub_frame(frame: Frame, x: int, y: int, bpp: int) -> Frame {
    Frame {
        width: (frame.width - x) as u16,
        height: (frame.height - y) as u16,
        stride: frame.stride,
        origin: frame.at(x, y, bpp),
        pixels: frame.pixels,
    }
}

pub open spec fn hovered_button(hover: Option<HitTarget>, idx: int) -> Option<u8> {
    match hover {
        Some(HitTarget::WindowButton(w, b)) if w as int == idx => Some(b),
        _ => None,
    }
}

pub open spec fn hovered_scroll(hover: Option<HitTarget>, idx: int) -> Option<ScrollDirection> {
    match hover {
        Some(HitTarget::ScrollArrow(w, d)) if w as int == idx => Some(d),
        _ => None,
    }
}

pub open spec fn greater(a: int, b: int) -> int {
    if a >= b { a } else { b }
}

/// A window that shrank uncovers the desktop where it was.
pub open spec fn uncovered(sub: Frame, win: Window, w: int, h: int, m: DecorMetrics, bpp: int) -> Frame {
    let (lw, lh) = (win.last_width as int, win.last_height as int);
    if w < lw && h < lh {
        sub.filled(0, 0, lw + m.extra_w, lh + m.extra_h, DESKTOP_BG, bpp)
    } else if w < lw {
        sub.filled(w + m.extra_w, 0, lw - w, h, DESKTOP_BG, bpp)
    } else if h < lh {
        sub.filled(0, h + m.extra_h, w, lh - h, DESKTOP_BG, bpp)
    } else {
        sub
    }
}

/// The region of a window, in its own coordinates, that changed.
pub open spec fn changed(win: Window, w: int, h: int, m: DecorMetrics, drawn: Option<Region>) -> Option<
    Region,
> {
    if w != win.last_width || h != win.last_height {
        Some(
            Region {
                x: 0,
                y: 0,
                width: (greater(win.last_width as int, w) + m.extra_w) as u16,
                height: (greater(win.last_height as int, h) + m.extra_h) as u16,
            },
        )
    } else {
        drawn
    }
}

/// A region of a window at `(x, y)`, on screen and cut at the screen's edges.
pub open spec fn on_screen(r: Region, x: int, y: int, look: Look) -> Region {
    Region {
        x: (r.x + x) as u16,
        y: (r.y + y) as u16,
        width: lesser(r.width as int, look.screen_w - (r.x + x)) as u16,
        height: lesser(r.height as int, look.screen_h - (r.y + y)) as u16,
    }
}

pub open spec fn number(idx: int) -> u8 {
    (idx % 256) as u8
}

pub open spec fn arrow_zone(x: int, y: int, idx: int, d: ScrollDirection) -> HitZone {
    HitZone {
        region: Region { x: x as u16, y: y as u16, width: 14, height: 14 },
        target: HitTarget::ScrollArrow(number(idx), d),
    }
}

/// The zones of the scroll arrows of a window at `(x, y)`.
pub open spec fn arrow_zones(x: int, y: int, idx: int, sb: Option<ScrollbarInfo>) -> Seq<HitZone> {
    match sb {
        None => Seq::empty(),
        Some(s) => {
            let v = if s.has_vertical {
                seq![
                    arrow_zone(x + s.v_x, y + s.v_y, idx, ScrollDirection::Up),
                    arrow_zone(x + s.v_x, y + s.v_y + s.v_height - 14, idx, ScrollDirection::Down),
                ]
            } else {
                Seq::empty()
            };
            let h = if s.has_horizontal {
                seq![
                    arrow_zone(x + s.h_x, y + s.h_y, idx, ScrollDirection::Left),
                    arrow_zone(x + s.h_x + s.h_width - 14, y + s.h_y, idx, ScrollDirection::Right),
                ]
            } else {
                Seq::empty()
            };
            v + h
        },
    }
}

/// The zones of a window, from low to high priority: content, title bar, buttons
/// and scroll arrows.
pub open spec fn window_zones<F: Font, D: Decor<F>>(
    decor: &D, x: int, y: int, w: int, h: int, idx: int, sb: Option<ScrollbarInfo>,
) -> Seq<HitZone> {
    let m = decor.spec_metrics();
    seq![
        HitZone {
            region: Region {
                x: x as u16,
                y: (y + m.content_y) as u16,
                width: (w + m.extra_w) as u16,
                height: (h + m.extra_h - m.content_y) as u16,
            },
            target: HitTarget::WindowContent(number(idx)),
        },
        HitZone {
            region: Region {
                x: x as u16,
                y: y as u16,
                width: (w + m.extra_w) as u16,
                height: m.bar_height,
            },
            target: HitTarget::WindowTitleBar(number(idx)),
        },
    ] + Seq::new(
        m.button_count as nat,
        |b: int| HitZone {
            region: decor.button_rect(x, y, w, b),
            target: HitTarget::WindowButton(number(idx), b as u8),
        },
    ) + arrow_zones(x, y, idx, sb)
}

pub open spec fn style_of(look: Look, idx: int, w: int, h: int) -> WindowStyle {
    WindowStyle {
        avail_w: w as u16,
        avail_h: h as u16,
        force: look.force,
        hover_button: hovered_button(look.hover, idx),
        hover_scroll: hovered_scroll(look.hover, idx),
        focused: idx == look.focused,
    }
}

/// What drawing the content and decorations of window `idx` gives.
pub open spec fn drawing<F: Font, D: Decor<F>>(
    s: Scene, look: Look, font: &F, decor: &D, idx: int,
) -> Drawn {
    let (x, y, w, h) = place(s.windows, look, decor.spec_metrics(), idx);
    window_drawn(
        sub_frame(s.frame, x, y, look.bpp), s.consoles[s.windows[idx].console_index as int], font,
        decor, style_of(look, idx, w, h), look.bpp,
    )
}

/// The scene after window `idx` was drawn.
pub open spec fn window_added<F: Font, D: Decor<F>>(
    s: Scene, look: Look, font: &F, decor: &D, idx: int,
) -> Scene {
    let m = decor.spec_metrics();
    let (x, y, w, h) = place(s.windows, look, m, idx);
    let win = s.windows[idx];
    let con = s.consoles[win.console_index as int];
    let d = drawing(s, look, font, decor, idx);
    let sub = if look.force { d.frame } else { uncovered(d.frame, win, w, h, m, look.bpp) };
    Scene {
        frame: s.frame.with(sub.pixels),
        windows: s.windows.update(idx, Window { last_width: w as u16, last_height: h as u16, ..win }),
        consoles: s.consoles.update(win.console_index as int, console_shown(con, d)),
        dirty: match changed(win, w, h, m, d.dirty) {
            Some(r) => dirty_with(s.dirty, on_screen(r, x, y, look)),
            None => s.dirty,
        },
        zones: s.zones + window_zones(decor, x, y, w, h, idx, d.scrollbars),
    }
}

/// The tiled windows among the first `n`.
pub open spec fn tiled_list(windows: Seq<Window>, n: int) -> Seq<usize>
    decreases n,
{
    if n <= 0 {
        Seq::empty()
    } else if windows[n - 1].mode == WindowMode::Tiled {
        tiled_list(windows, n - 1).push((n - 1) as usize)
    } else {
        tiled_list(windows, n - 1)
    }
}

/// The order of drawing: tiled windows first, then the floating ones, bottom to top.
pub open spec fn draw_order(windows: Seq<Window>, order: Seq<usize>) -> Seq<usize> {
    tiled_list(windows, windows.len() as int) + order
}

/// The scene after the first `n` windows of an order were drawn, all but `skip`.
pub open spec fn windows_drawn<F: Font, D: Decor<F>>(
    s: Scene, look: Look, font: &F, decor: &D, order: Seq<usize>, skip: Option<usize>, n: nat,
) -> Scene
    decreases n,
{
    if n == 0 {
        s
    } else {
        let prev = windows_drawn(s, look, font, decor, order, skip, (n - 1) as nat);
        if skip == Some(order[n - 1]) {
            prev
        } else {
            window_added(prev, look, font, decor, order[n - 1] as int)
        }
    }
}

/// Window `idx` can be drawn: its place is on screen, in the buffer and in
/// 16-bit coordinates, and its console exists.
pub open spec fn placeable<F: Font, D: Decor<F>>(
    s: Scene, look: Look, font: &F, decor: &D, idx: int,
) -> bool {
    let m = decor.spec_metrics();
    let (x, y, w, h) = place(s.windows, look, m, idx);
    let win = s.windows[idx];
    let (bw, bh) = (greater(win.last_width as int, w), greater(win.last_height as int, h));
    let con = s.consoles[win.console_index as int];
    let sub = sub_frame(s.frame, x, y, look.bpp);
    &&& 0 <= idx < s.windows.len()
    &&& 0 <= x <= look.screen_w
    &&& 0 <= y <= look.screen_h
    &&& 0 <= w
    &&& 0 <= h
    &&& x + bw + m.extra_w <= u16::MAX
    &&& y + bh + m.extra_h <= u16::MAX
    &&& x + m.content_x + at_least_arrow(w) <= u16::MAX
    &&& y + m.content_y + at_least_arrow(h) <= u16::MAX
    &&& win.console_index < s.consoles.len()
    &&& con.wf()
    &&& con.terminal.graphics_buffer.is_none() ==> arrows_fit(
        m, text_layout(w, h, char_width(font), font.height() as int),
    )
    &&& window_fits(sub, con, font, decor, w, h, look.bpp)
    &&& sub.origin <= s.frame.pixels.len()
    &&& !look.force ==> sub.fits(0, 0, bw + m.extra_w, bh + m.extra_h, look.bpp)
}

pub open spec fn all_placeable<F: Font, D: Decor<F>>(
    s: Scene, look: Look, font: &F, decor: &D, order: Seq<usize>, skip: Option<usize>,
) -> bool {
    forall|i: int|
        0 <= i < order.len() && skip != Some(#[trigger] order[i]) ==> placeable(
            s, look, font, decor, order[i] as int,
        )
}

/// The whole window that goes with a tile.
pub open spec fn tile_region(look: Look, m: DecorMetrics, count: int, pos: int) -> (int, int, int, int) {
    let (x, y, w, h) = tile(look, m, count, pos);
    (x, y, x + w + m.extra_w, y + h + m.extra_h)
}

/// Tiles lie on the desktop below the top bar, and no two of them overlap.
pub proof fn tiles_do_not_overlap(look: Look, m: DecorMetrics, count: int, a: int, b: int)
    requires
        1 <= count <= 4,
        0 <= a < count,
        0 <= b < count,
        a != b,
        28 <= look.screen_h,
        0 <= look.screen_w,
    ensures
        ({
            let (ax, ay, ar, ab) = tile_region(look, m, count, a);
            let (bx, by, br, bb) = tile_region(look, m, count, b);
            &&& 0 <= ax && ar <= look.screen_w && 28 <= ay && ab <= look.screen_h
            &&& ar <= bx || br <= ax || ab <= by || bb <= ay
        }),
{
    let hh = (look.screen_h - 28) / 2;
    let hw = look.screen_w / 2;
    assert(a == 0 || a == 1 || a == 2 || a == 3);
    assert(b == 0 || b == 1 || b == 2 || b == 3);
    assert(0 * hh == 0 && 1 * hh == hh && 0 * hw == 0 && 1 * hw == hw);
}

pub open spec fn zones_wf(zones: Seq<HitZone>) -> bool {
    forall|i: int| 0 <= i < zones.len() ==> (#[trigger] zones[i]).region.wf()
}

/// Two lists of windows that differ at most in the sizes last drawn.
pub open spec fn same_places(a: Seq<Window>, b: Seq<Window>) -> bool {
    a.len() == b.len() && forall|i: int| 0 <= i < a.len() ==>
        (#[trigger] a[i]).mode == b[i].mode && a[i].x == b[i].x && a[i].y == b[i].y
        && a[i].console_index == b[i].console_index
}

proof fn lemma_place_same(a: Seq<Window>, b: Seq<Window>, look: Look, m: DecorMetrics, idx: int)
    requires
        same_places(a, b),
        0 <= idx < a.len(),
    ensures
        place(a, look, m, idx) == place(b, look, m, idx),
{
    lemma_tiled_prefix(a, b, a.len() as int);
    lemma_tiled_prefix(a, b, idx);
}

pub proof fn lemma_tiled_list(windows: Seq<Window>, n: int)
    requires
        0 <= n <= windows.len() <= usize::MAX,
    ensures
        tiled_list(windows, n).len() == tiled_before(windows, n),
        forall|i: int| 0 <= i < tiled_list(windows, n).len() ==> {
            let t = #[trigger] tiled_list(windows, n)[i];
            t < n && windows[t as int].mode == WindowMode::Tiled && tiled_before(windows, t as int) == i
        },
    decreases n,
{
    if n > 0 {
        lemma_tiled_list(windows, n - 1);
    }
}

/// The windows of a drawing order: the tiled ones by their number among the tiled, then the
/// floating ones.
pub proof fn lemma_order_bounds(windows: Seq<Window>, order: Seq<usize>)
    requires
        order_matches(windows, order),
        windows.len() <= usize::MAX,
    ensures
        forall|i: int| 0 <= i < draw_order(windows, order).len() ==>
            (#[trigger] draw_order(windows, order)[i]) < windows.len(),
        forall|i: int| tiled_count(windows) <= i < draw_order(windows, order).len() ==>
            windows[(#[trigger] draw_order(windows, order)[i]) as int].mode == WindowMode::Floating,
        forall|i: int| 0 <= i < tiled_count(windows) ==> {
            let t = #[trigger] draw_order(windows, order)[i];
            windows[t as int].mode == WindowMode::Tiled && tiled_before(windows, t as int) == i
        },
        tiled_count(windows) <= draw_order(windows, order).len(),
{
    lemma_tiled_list(windows, windows.len() as int);
    let t = tiled_list(windows, windows.len() as int);
    assert forall|i: int| 0 <= i < draw_order(windows, order).len() implies
        (#[trigger] draw_order(windows, order)[i]) < windows.len() by {
        if i < t.len() {
            assert(t[i] < windows.len());
        } else {
            assert(order[i - t.len()] < windows.len());
        }
    }
    assert forall|i: int| tiled_count(windows) <= i < draw_order(windows, order).len() implies
        windows[(#[trigger] draw_order(windows, order)[i]) as int].mode == WindowMode::Floating by {
        assert(windows[order[i - t.len()] as int].mode == WindowMode::Floating);
    }
    assert forall|i: int| 0 <= i < tiled_count(windows) implies {
        let d = #[trigger] draw_order(windows, order)[i];
        windows[d as int].mode == WindowMode::Tiled && tiled_before(windows, d as int) == i
    } by {
        assert(draw_order(windows, order)[i] == t[i]);
    }
}

/// Drawing one window leaves the others drawable.
proof fn lemma_still_placeable<F: Font, D: Decor<F>>(
    a: Scene, b: Scene, look: Look, font: &F, decor: &D, idx: int, other: int,
)
    requires
        1 <= look.bpp <= 4,
        placeable(a, look, font, decor, idx),
        placeable(a, look, font, decor, other),
        b == window_added(a, look, font, decor, idx),
        b.frame.same_shape(a.frame),
    ensures
        placeable(b, look, font, decor, other),
{
    let m = decor.spec_metrics();
    lemma_place_same(a.windows, b.windows, look, m, idx);
    lemma_place_same(a.windows, b.windows, look, m, other);
    let (x, y, w, h) = place(a.windows, look, m, other);
    let suba = sub_frame(a.frame, x, y, look.bpp);
    let subb = sub_frame(b.frame, x, y, look.bpp);
    assert(subb.same_shape(suba));
    let wa = a.windows[other];
    let wb = b.windows[other];
    if !look.force {
        lemma_sub_block_fits(
            suba, 0, 0, greater(wa.last_width as int, w) + m.extra_w,
            greater(wa.last_height as int, h) + m.extra_h, 0, 0,
            greater(wb.last_width as int, w) + m.extra_w,
            greater(wb.last_height as int, h) + m.extra_h, look.bpp,
        );
    }
}

impl Compositor {
    pub open spec fn look(&self) -> Look {
        Look {
            screen_w: self.fb.width as int,
            screen_h: self.fb.height as int,
            bpp: self.bpp(),
            force: self.force_redraw,
            focused: self.focused_window,
            hover: self.topbar_state.hover,
        }
    }

    pub open spec fn scene(&self, consoles: Seq<Console>) -> Scene {
        Scene {
            frame: self.scratch@,
            windows: self.windows@,
            consoles,
            dirty: self.dirty_regions@,
            zones: self.hit_map@,
        }
    }

    /// The same compositor but for what drawing windows changes.
    pub open spec fn differs_in_scene(&self, other: Compositor) -> bool {
        *self == (Compositor {
            scratch: self.scratch,
            windows: self.windows,
            dirty_regions: self.dirty_regions,
            hit_map: self.hit_map,
            ..other
        })
    }

    pub(crate) fn tile_place(&self, count: usize, pos: usize) -> (r: (u16, u16, u16, u16))
        requires
            self.wf(),
            count <= 4,
            pos < 4,
            count == 2 ==> pos < 2,
            count == 3 ==> pos < 3,
            ({
                let (x, y, w, h) = tile(self.look(), self.metrics, count as int, pos as int);
                0 <= x && 0 <= y && 0 <= w && 0 <= h
            }),
        ensures
            ({
                let (x, y, w, h) = tile(self.look(), self.metrics, count as int, pos as int);
                r.0 == x && r.1 == y && r.2 == w && r.3 == h
            }),
    {
        let screen_w: u16 = self.fb.width;
        let desk: u16 = self.fb.height - TOP_BAR_HEIGHT;
        let ew: u16 = self.metrics.extra_w;
        let eh: u16 = self.metrics.extra_h;
        if count <= 1 {
            (0, TOP_BAR_HEIGHT, screen_w - ew, desk - eh)
        } else if count == 2 {
            let cell_h: u16 = desk / 2;
            let y: u16 = if pos == 0 { TOP_BAR_HEIGHT } else { TOP_BAR_HEIGHT + cell_h };
            assert(pos * cell_h == (if pos == 0 { 0 } else { cell_h as int })) by (nonlinear_arith)
                requires 0 <= pos < 2;
            (0, y, screen_w - ew, cell_h - eh)
        } else if count == 3 {
            let half_h: u16 = desk / 2;
            if pos == 0 {
                (0, TOP_BAR_HEIGHT, screen_w - ew, half_h - eh)
            } else {
                let half_w: u16 = screen_w / 2;
                let x: u16 = if pos == 1 { 0 } else { half_w };
                assert((pos - 1) * half_w == (if pos == 1 { 0 } else { half_w as int }))
                    by (nonlinear_arith) requires 1 <= pos < 3;
                (x, TOP_BAR_HEIGHT + half_h, half_w - ew, half_h - eh)
            }
        } else {
            let cell_w: u16 = screen_w / 2;
            let cell_h: u16 = desk / 2;
            let row: usize = pos / 2;
            let col: usize = pos % 2;
            let x: u16 = if col == 0 { 0 } else { cell_w };
            let y: u16 = if row == 0 { TOP_BAR_HEIGHT } else { TOP_BAR_HEIGHT + cell_h };
            assert(col * cell_w == (if col == 0 { 0 } else { cell_w as int })) by (nonlinear_arith)
                requires 0 <= col < 2;
            assert(row * cell_h == (if row == 0 { 0 } else { cell_h as int })) by (nonlinear_arith)
                requires 0 <= row < 2;
            (x, y, cell_w - ew, cell_h - eh)
        }
    }

    /// Register the zones of a window.
    fn register_window<F: Font, D: Decor<F>>(
        &mut self, decor: &D, x: u16, y: u16, w: u16, h: u16, idx: usize, sb: Option<ScrollbarInfo>,
    )
        requires
            old(self).wf(),
            decor.spec_metrics() == old(self).metrics,
            zones_wf(old(self).hit_map@),
            x + w + old(self).metrics.extra_w <= u16::MAX,
            y + h + old(self).metrics.extra_h <= u16::MAX,
            sb matches Some(s) ==> {
                &&& s.has_vertical ==> x + s.v_x + 14 <= u16::MAX && y + s.v_y + 14 <= u16::MAX
                    && y + s.v_y + s.v_height <= u16::MAX && 14 <= s.v_y + s.v_height
                &&& s.has_horizontal ==> y + s.h_y + 14 <= u16::MAX && x + s.h_x + 14 <= u16::MAX
                    && x + s.h_x + s.h_width <= u16::MAX && 14 <= s.h_x + s.h_width
            },
        ensures
            final(self).wf(),
            zones_wf(final(self).hit_map@),
            final(self).hit_map@ == old(self).hit_map@ + window_zones(
                decor, x as int, y as int, w as int, h as int, idx as int, sb,
            ),
            *final(self) == (Compositor { hit_map: final(self).hit_map, ..*old(self) }),
    {
        let m: DecorMetrics = self.metrics;
        let n: u8 = (idx % 256) as u8;
        let ghost zones = window_zones(decor, x as int, y as int, w as int, h as int, idx as int, sb);
        let ghost z0 = self.hit_map@;
        self.hit_map.add(
            Region {
                x,
                y: y + m.content_y,
                width: w + m.extra_w,
                height: h + m.extra_h - m.content_y,
            },
            HitTarget::WindowContent(n),
        );
        self.hit_map.add(
            Region { x, y, width: w + m.extra_w, height: m.bar_height },
            HitTarget::WindowTitleBar(n),
        );
        assert(self.hit_map@ =~= z0 + zones.subrange(0, 2));
        let mut b: u8 = 0;
        while b < m.button_count
            invariant
                b <= m.button_count,
                m == old(self).metrics,
                decor.spec_metrics() == m,
                n == number(idx as int),
                x + w + m.extra_w <= u16::MAX,
                y + h + m.extra_h <= u16::MAX,
                m.wf(),
                zones_wf(self.hit_map@),
                zones == window_zones(decor, x as int, y as int, w as int, h as int, idx as int, sb),
                self.hit_map@ == z0 + zones.subrange(0, 2 + b),
                *self == (Compositor { hit_map: self.hit_map, ..*old(self) }),
            decreases m.button_count - b,
        {
            let rect: Region = decor.button_screen_rect(x, y, w, b);
            self.hit_map.add(rect, HitTarget::WindowButton(n, b));
            b += 1;
            assert(self.hit_map@ =~= z0 + zones.subrange(0, 2 + b));
        }
        if let Some(s) = sb {
            if s.has_vertical {
                self.hit_map.add(
                    Region { x: x + s.v_x, y: y + s.v_y, width: 14, height: 14 },
                    HitTarget::ScrollArrow(n, ScrollDirection::Up),
                );
                let down_y: u16 = s.v_y + s.v_height - 14;
                self.hit_map.add(
                    Region { x: x + s.v_x, y: y + down_y, width: 14, height: 14 },
                    HitTarget::ScrollArrow(n, ScrollDirection::Down),
                );
            }
            if s.has_horizontal {
                self.hit_map.add(
                    Region { x: x + s.h_x, y: y + s.h_y, width: 14, height: 14 },
                    HitTarget::ScrollArrow(n, ScrollDirection::Left),
                );
                let right_x: u16 = s.h_x + s.h_width - 14;
                self.hit_map.add(
                    Region { x: x + right_x, y: y + s.h_y, width: 14, height: 14 },
                    HitTarget::ScrollArrow(n, ScrollDirection::Right),
                );
            }
        }
        assert(self.hit_map@ =~= z0 + zones);
    }

    /// Fill what a window that shrank uncovers.
    fn uncover(&mut self, win: &Window, w: u16, h: u16)
        requires
            1 <= old(self).bpp() <= 4,
            w + old(self).metrics.extra_w <= u16::MAX,
            h + old(self).metrics.extra_h <= u16::MAX,
            win.last_width + old(self).metrics.extra_w <= u16::MAX,
            win.last_height + old(self).metrics.extra_h <= u16::MAX,
            old(self).scratch@.fits(
                0, 0, greater(win.last_width as int, w as int) + old(self).metrics.extra_w,
                greater(win.last_height as int, h as int) + old(self).metrics.extra_h,
                old(self).bpp(),
            ),
        ensures
            final(self).scratch@ == uncovered(
                old(self).scratch@, *win, w as int, h as int, old(self).metrics, old(self).bpp(),
            ),
            final(self).scratch@.same_shape(old(self).scratch@),
            *final(self) == (Compositor { scratch: final(self).scratch, ..*old(self) }),
    {
        let bpp: usize = self.depth.to_usize();
        let ew: u16 = self.metrics.extra_w;
        let eh: u16 = self.metrics.extra_h;
        let ghost f = self.scratch@;
        let ghost bw = greater(win.last_width as int, w as int) + ew;
        let ghost bh = greater(win.last_height as int, h as int) + eh;
        if w < win.last_width && h < win.last_height {
            self.scratch.fill(
                0, 0, (win.last_width + ew) as usize, (win.last_height + eh) as usize, DESKTOP_BG, bpp,
            );
        } else if w < win.last_width {
            proof {
                lemma_sub_block_fits(
                    f, 0, 0, bw, bh, w + ew, 0, win.last_width - w, h as int, bpp as int,
                );
            }
            self.scratch.fill(
                (w + ew) as usize, 0, (win.last_width - w) as usize, h as usize, DESKTOP_BG, bpp,
            );
        } else if h < win.last_height {
            proof {
                lemma_sub_block_fits(
                    f, 0, 0, bw, bh, 0, h + eh, w as int, win.last_height - h, bpp as int,
                );
            }
            self.scratch.fill(
                0, (h + eh) as usize, w as usize, (win.last_height - h) as usize, DESKTOP_BG, bpp,
            );
        }
    }

    /// Draw the content and decorations of a window at `(x, y)`, and what it uncovers.
    fn draw_content<F: Font, D: Decor<F>>(
        &mut self, console: &mut Console, font: &F, decor: &D, window: &Window, style: &WindowStyle,
        x: u16, y: u16,
    ) -> (r: (Option<Region>, Option<ScrollbarInfo>))
        requires
            old(self).wf(),
            decor.spec_metrics() == old(self).metrics,
            old(console).wf(),
            x <= old(self).fb.width,
            y <= old(self).fb.height,
            old(self).force_redraw == style.force,
            ({
                let m = old(self).metrics;
                let sub = sub_frame(old(self).scratch@, x as int, y as int, old(self).bpp());
                let bw = greater(window.last_width as int, style.avail_w as int);
                let bh = greater(window.last_height as int, style.avail_h as int);
                &&& sub.origin <= sub.pixels.len()
                &&& bw + m.extra_w <= u16::MAX
                &&& bh + m.extra_h <= u16::MAX
                &&& window_fits(
                    sub, *old(console), font, decor, style.avail_w as int, style.avail_h as int,
                    old(self).bpp(),
                )
                &&& !style.force ==> sub.fits(0, 0, bw + m.extra_w, bh + m.extra_h, old(self).bpp())
            }),
        ensures
            ({
                let m = old(self).metrics;
                let sub = sub_frame(old(self).scratch@, x as int, y as int, old(self).bpp());
                let d = window_drawn(sub, *old(console), font, decor, *style, old(self).bpp());
                let shown = if style.force {
                    d.frame
                } else {
                    uncovered(
                        d.frame, *window, style.avail_w as int, style.avail_h as int, m,
                        old(self).bpp(),
                    )
                };
                &&& final(self).scratch@ == old(self).scratch@.with(shown.pixels)
                &&& *final(console) == console_shown(*old(console), d)
                &&& r == (d.dirty, d.scrollbars)
            }),
            final(console).wf(),
            final(self).wf(),
            final(self).scratch@.same_shape(old(self).scratch@),
            *final(self) == (Compositor { scratch: final(self).scratch, ..*old(self) }),
    {
        let ghost f0 = self.scratch@;
        let bpp: usize = self.depth.to_usize();
        let screen_w: u16 = self.fb.width;
        let screen_h: u16 = self.fb.height;
        assert(y * self.scratch.stride <= 0xffff * 0xffff) by (nonlinear_arith)
            requires 0 <= y <= 0xffff, 0 <= self.scratch.stride <= 0xffff;
        assert(0 <= y * self.scratch.stride) by (nonlinear_arith)
            requires 0 <= y, 0 <= self.scratch.stride;
        assert(0 <= x * bpp <= 0xffff * 3) by (nonlinear_arith)
            requires 0 <= x <= 0xffff, 0 <= bpp <= 3;
        let capacity: usize = self.scratch.pixels.len();
        self.scratch.origin = y as usize * self.scratch.stride as usize + x as usize * bpp;
        self.scratch.width = screen_w - x;
        self.scratch.height = screen_h - y;
        let ghost sub = sub_frame(f0, x as int, y as int, bpp as int);
        assert(self.scratch@ == sub);
        let (_w, _h, drawn, scrollbars): (u16, u16, Option<Region>, Option<ScrollbarInfo>) =
            ConsoleManager::draw_window(console, &mut self.scratch, font, decor, style, bpp);
        if !style.force {
            self.uncover(window, style.avail_w, style.avail_h);
        }
        self.scratch.origin = 0;
        self.scratch.width = screen_w;
        self.scratch.height = screen_h;
        (drawn, scrollbars)
    }

    /// Draw one window: content, decorations, dirty region and hit zones.
    #[verifier::rlimit(40)]
    fn draw_one_window<F: Font, D: Decor<F>>(
        &mut self, conman: &mut ConsoleManager, font: &F, decor: &D, idx: usize, count: usize, pos: usize,
    )
        requires
            old(self).wf(),
            decor.spec_metrics() == old(self).metrics,
            zones_wf(old(self).hit_map@),
            placeable(
                old(self).scene(old(conman).consoles@), old(self).look(), font, decor, idx as int,
            ),
            count == tiled_count(old(self).windows@),
            old(self).windows@[idx as int].mode == WindowMode::Tiled ==> pos == tiled_before(
                old(self).windows@, idx as int,
            ) && pos < count,
        ensures
            final(self).wf(),
            zones_wf(final(self).hit_map@),
            final(self).scene(final(conman).consoles@) == window_added(
                old(self).scene(old(conman).consoles@), old(self).look(), font, decor, idx as int,
            ),
            final(self).scratch@.same_shape(old(self).scratch@),
            final(self).differs_in_scene(*old(self)),
            *final(conman) == (ConsoleManager { consoles: final(conman).consoles, ..*old(conman) }),
            regions_within(
                old(self).dirty_regions@, old(self).fb.width as int, old(self).fb.height as int,
            ) ==> regions_within(
                final(self).dirty_regions@, old(self).fb.width as int, old(self).fb.height as int,
            ),
    {
        let ghost look = self.look();
        let ghost s0 = self.scene(conman.consoles@);
        let ghost m0 = self.metrics;
        let bpp: usize = self.depth.to_usize();
        let window: Window = self.windows[idx];
        let m: DecorMetrics = self.metrics;
        let (x, y, w, h): (u16, u16, u16, u16) = match window.mode {
            WindowMode::Tiled => self.tile_place(count, pos),
            WindowMode::Floating => (window.x, window.y, 640, 400),
        };
        assert(place(s0.windows, look, m, idx as int) == (x as int, y as int, w as int, h as int));
        let hover_button: Option<u8> = match self.topbar_state.hover {
            Some(HitTarget::WindowButton(wi, btn)) if wi as usize == idx => Some(btn),
            _ => None,
        };
        let hover_scroll: Option<ScrollDirection> = match self.topbar_state.hover {
            Some(HitTarget::ScrollArrow(wi, dir)) if wi as usize == idx => Some(dir),
            _ => None,
        };
        let style: WindowStyle = WindowStyle {
            avail_w: w,
            avail_h: h,
            force: self.force_redraw,
            hover_button,
            hover_scroll,
            focused: idx == self.focused_window,
        };
        assert(style == style_of(look, idx as int, w as int, h as int));

        let ci: usize = window.console_index;
        let ghost d = drawing(s0, look, font, decor, idx as int);
        let (drawn, scrollbars): (Option<Region>, Option<ScrollbarInfo>) = self.draw_content(
            &mut conman.consoles[ci], font, decor, &window, &style, x, y,
        );
        proof {
            lemma_drawn_reports(
                sub_frame(s0.frame, x as int, y as int, bpp as int), s0.consoles[ci as int], font,
                decor, style, bpp as int,
            );
        }
        let screen_w: u16 = self.fb.width;
        let screen_h: u16 = self.fb.height;
        let resized: bool = w != window.last_width || h != window.last_height;
        let ghost shown = self.scratch@;
        let region: Option<Region> = if resized {
            let bw: u16 = if window.last_width >= w { window.last_width } else { w };
            let bh: u16 = if window.last_height >= h { window.last_height } else { h };
            Some(Region { x: 0, y: 0, width: bw + m.extra_w, height: bh + m.extra_h })
        } else {
            drawn
        };
        assert(region == changed(window, w as int, h as int, m, d.dirty));
        self.windows[idx] = Window { last_width: w, last_height: h, ..window };
        proof {
            lemma_windows_keep_wf(s0.windows, self.windows@, self.float_order@);
        }
        if let Some(r) = region {
            assert(r.x == 0 && r.y == 0);
            let room_w: u16 = screen_w - x;
            let room_h: u16 = screen_h - y;
            let dirty: Region = Region {
                x,
                y,
                width: if r.width <= room_w { r.width } else { room_w },
                height: if r.height <= room_h { r.height } else { room_h },
            };
            add_dirty_region(&mut self.dirty_regions, dirty);
        }
        self.register_window(decor, x, y, w, h, idx, scrollbars);
        assert(self.scratch@ == shown);
        assert(self.scene(conman.consoles@).frame == window_added(s0, look, font, decor, idx as int).frame);
        assert(conman.consoles@ =~= window_added(s0, look, font, decor, idx as int).consoles);
    }

    /// Draw all windows, but not `skip_idx`: tiled ones first, then floating ones
    /// from bottom to top.
    pub fn draw_windows_inner<F: Font, D: Decor<F>>(
        &mut self, conman: &mut ConsoleManager, font: &F, decor: &D, skip_idx: Option<usize>,
    )
        requires
            old(self).wf(),
            decor.spec_metrics() == old(self).metrics,
            zones_wf(old(self).hit_map@),
            all_placeable(
                old(self).scene(old(conman).consoles@), old(self).look(), font, decor,
                draw_order(old(self).windows@, old(self).float_order@), skip_idx,
            ),
        ensures
            final(self).wf(),
            zones_wf(final(self).hit_map@),
            ({
                let order = draw_order(old(self).windows@, old(self).float_order@);
                final(self).scene(final(conman).consoles@) == windows_drawn(
                    old(self).scene(old(conman).consoles@), old(self).look(), font, decor, order,
                    skip_idx, order.len(),
                )
            }),
            final(self).scratch@.same_shape(old(self).scratch@),
            same_places(final(self).windows@, old(self).windows@),
            all_placeable(
                final(self).scene(final(conman).consoles@), old(self).look(), font, decor,
                draw_order(old(self).windows@, old(self).float_order@), skip_idx,
            ),
            final(self).differs_in_scene(*old(self)),
            *final(conman) == (ConsoleManager { consoles: final(conman).consoles, ..*old(conman) }),
            regions_within(
                old(self).dirty_regions@, old(self).fb.width as int, old(self).fb.height as int,
            ) ==> regions_within(
                final(self).dirty_regions@, old(self).fb.width as int, old(self).fb.height as int,
            ),
    {
        let ghost look = self.look();
        let ghost s0 = self.scene(conman.consoles@);
        let ghost order = draw_order(self.windows@, self.float_order@);
        let (draw, count): (Vec<usize>, usize) = self.collect_order();
        let window_count: usize = self.windows.len();
        proof { lemma_order_bounds(s0.windows, self.float_order@); }
        let mut i: usize = 0;
        while i < draw.len()
            invariant
                i <= draw@.len(),
                draw@ == order,
                order == draw_order(s0.windows, old(self).float_order@),
                windows_wf(s0.windows, old(self).float_order@),
                s0.windows == old(self).windows@,
                s0.dirty == old(self).dirty_regions@,
                s0.frame == old(self).scratch@,
                look == old(self).look(),
                self.look() == look,
                1 <= look.bpp <= 4,
                count == tiled_count(s0.windows),
                self.wf(),
                self.metrics == old(self).metrics,
                self.float_order@ == old(self).float_order@,
                decor.spec_metrics() == self.metrics,
                zones_wf(self.hit_map@),
                self.differs_in_scene(*old(self)),
                *conman == (ConsoleManager { consoles: conman.consoles, ..*old(conman) }),
                same_places(self.windows@, s0.windows),
                self.scratch@.same_shape(s0.frame),
                all_placeable(
                    self.scene(conman.consoles@), look, font, decor, order, skip_idx,
                ),
                self.scene(conman.consoles@) == windows_drawn(
                    s0, look, font, decor, order, skip_idx, i as nat,
                ),
                forall|k: int| 0 <= k < order.len() ==> (#[trigger] order[k]) < s0.windows.len(),
                forall|k: int| count <= k < order.len() ==>
                    s0.windows[(#[trigger] order[k]) as int].mode == WindowMode::Floating,
                forall|k: int| 0 <= k < count ==> {
                    let t = #[trigger] order[k];
                    s0.windows[t as int].mode == WindowMode::Tiled
                        && tiled_before(s0.windows, t as int) == k
                },
                regions_within(s0.dirty, old(self).fb.width as int, old(self).fb.height as int)
                    ==> regions_within(
                    self.dirty_regions@, old(self).fb.width as int, old(self).fb.height as int,
                ),
            decreases draw@.len() - i,
        {
            let win_idx: usize = draw[i];
            let skipped: bool = match skip_idx {
                Some(s) => s == win_idx,
                None => false,
            };
            if !skipped {
                let ghost before = self.scene(conman.consoles@);
                proof {
                    assert(skip_idx != Some(order[i as int]));
                    assert(placeable(before, look, font, decor, win_idx as int));
                    lemma_tiled_prefix(self.windows@, s0.windows, s0.windows.len() as int);
                    lemma_tiled_prefix(self.windows@, s0.windows, win_idx as int);
                }
                self.draw_one_window(conman, font, decor, win_idx, count, i);
                proof {
                    let after = self.scene(conman.consoles@);
                    assert forall|k: int| 0 <= k < order.len() && skip_idx != Some(#[trigger] order[k])
                        implies placeable(after, look, font, decor, order[k] as int) by {
                        lemma_still_placeable(
                            before, after, look, font, decor, win_idx as int, order[k] as int,
                        );
                    }
                }
            }
            i += 1;
        }
    }

    /// The drawing order, and how many of its windows are tiled.
    pub(crate) fn collect_order(&self) -> (r: (Vec<usize>, usize))
        requires
            self.wf(),
        ensures
            r.0@ == draw_order(self.windows@, self.float_order@),
            r.1 == tiled_count(self.windows@),
    {
        let mut draw: Vec<usize> = Vec::new();
        let mut i: usize = 0;
        while i < self.windows.len()
            invariant
                i <= self.windows@.len(),
                draw@ == tiled_list(self.windows@, i as int),
            decreases self.windows@.len() - i,
        {
            if self.windows[i].mode == WindowMode::Tiled {
                draw.push(i);
            }
            i += 1;
        }
        let n: usize = self.windows.len();
        proof { lemma_tiled_list(self.windows@, n as int); }
        let count: usize = draw.len();
        let ghost tiled = draw@;
        let mut k: usize = 0;
        while k < self.float_order.len()
            invariant
                k <= self.float_order@.len(),
                draw@ =~= tiled + self.float_order@.subrange(0, k as int),
            decreases self.float_order@.len() - k,
        {
            draw.push(self.float_order[k]);
            k += 1;
        }
        assert(draw@ =~= tiled + self.float_order@);
        (draw, count)
    }

    /// Draw all windows.
    pub fn draw_windows<F: Font, D: Decor<F>>(
        &mut self, conman: &mut ConsoleManager, font: &F, decor: &D,
    )
        requires
            old(self).wf(),
            decor.spec_metrics() == old(self).metrics,
            zones_wf(old(self).hit_map@),
            all_placeable(
                old(self).scene(old(conman).consoles@), old(self).look(), font, decor,
                draw_order(old(self).windows@, old(self).float_order@), None,
            ),
        ensures
            final(self).wf(),
            zones_wf(final(self).hit_map@),
            ({
                let order = draw_order(old(self).windows@, old(self).float_order@);
                final(self).scene(final(conman).consoles@) == windows_drawn(
                    old(self).scene(old(conman).consoles@), old(self).look(), font, decor, order,
                    None, order.len(),
                )
            }),
            final(self).scratch@.same_shape(old(self).scratch@),
            same_places(final(self).windows@, old(self).windows@),
            all_placeable(
                final(self).scene(final(conman).consoles@), old(self).look(), font, decor,
                draw_order(old(self).windows@, old(self).float_order@), None,
            ),
            final(self).differs_in_scene(*old(self)),
            *final(conman) == (ConsoleManager { consoles: final(conman).consoles, ..*old(conman) }),
            regions_within(
                old(self).dirty_regions@, old(self).fb.width as int, old(self).fb.height as int,
            ) ==> regions_within(
                final(self).dirty_regions@, old(self).fb.width as int, old(self).fb.height as int,
            ),
    {
        self.draw_windows_inner(conman, font, decor, None);
    }
}

proof fn lemma_windows_keep_wf(a: Seq<Window>, b: Seq<Window>, order: Seq<usize>)
    requires
        windows_wf(a, order),
        same_places(b, a),
    ensures
        windows_wf(b, order),
{
    lemma_tiled_prefix(a, b, a.len() as int);
    assert forall|w: usize| w < b.len() && (#[trigger] b[w as int]).mode == WindowMode::Floating implies
        order.contains(w) by {
        assert(a[w as int].mode == WindowMode::Floating);
    }
}

} // verus!
