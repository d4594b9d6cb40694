//! The compositor's window list: tiling, floating order, focus and moves.
use vstd::prelude::*;

use crate::console::decor::DecorMetrics;
use crate::console::graphics::{
    add_dirty_region, dirty_with, regions_wf, Frame, Framebuffer, Region, DESKTOP_BG,
};
use crate::console::hit::HitMap;
use crate::console::topbar::{initial_bar, TopBarState, TOP_BAR_HEIGHT};

verus! {

#[derive(Clone, Copy, PartialEq, Eq, Structural, Debug)]
pub enum ColorDepth {
    Color8Bit,
    Color555,
    Color565,
    Color888,
}

impl ColorDepth {
    /// Bytes per pixel.
    pub open spec fn bytes(&self) -> int {
        match self {
            ColorDepth::Color8Bit => 1,
            ColorDepth::Color555 => 2,
            ColorDepth::Color565 => 2,
            ColorDepth::Color888 => 3,
        }
    }

    pub fn to_usize(&self) -> (r: usize)
        ensures
            r == self.bytes(),
            1 <= r <= 3,
    {
        match self {
            ColorDepth::Color8Bit => 1,
            ColorDepth::Color555 => 2,
            ColorDepth::Color565 => 2,
            ColorDepth::Color888 => 3,
        }
    }
}

#[derive(Clone, Copy, PartialEq, Eq, Structural, Debug)]
pub enum WindowMode {
    Tiled,
    Floating,
}

#[derive(Clone, Copy, PartialEq, Eq, Structural, Debug)]
pub struct Window {
    pub console_index: usize,
    pub mode: WindowMode,
    pub x: u16,
    pub y: u16,
    /// Size of the content when it was last drawn.
    pub last_width: u16,
    pub last_height: u16,
}

/// The mouse pointer: one row of up to 16 pixels per word, leftmost in the top bit.
pub struct Cursor {
    pub width: u16,
    pub height: u16,
    pub bitmap: Vec<u16>,
}

impl Cursor {
    pub open spec fn wf(&self) -> bool {
        self.width <= 16 && self.height <= self.bitmap@.len()
    }
}

/// State of a fast window drag: a cached picture of the window moves over a
/// cached background.
pub struct DragRender {
    pub window_idx: usize,
    /// The pixels of the window, row after row.
    pub snapshot: Vec<u8>,
    pub snap_w: u16,
    pub snap_h: u16,
    /// Where the window was last shown.
    pub prev_x: u16,
    pub prev_y: u16,
}

pub struct Compositor {
    pub depth: ColorDepth,
    /// The screen.
    pub fb: Framebuffer,
    /// The picture in the making, without the pointer.
    pub scratch: Framebuffer,
    /// Redraw everything at the next chance.
    pub force_redraw: bool,
    pub cursor_x: u16,
    pub cursor_y: u16,
    pub current_cursor: Cursor,
    pub dirty_regions: Vec<Region>,
    pub windows: Vec<Window>,
    /// The window that receives keyboard input.
    pub focused_window: usize,
    /// The floating windows from bottom to top.
    pub float_order: Vec<usize>,
    pub drag_render: Option<DragRender>,
    pub hit_map: HitMap,
    pub topbar_state: TopBarState,
    pub metrics: DecorMetrics,
}

/// How many of the first `n` windows are tiled.
pub open spec fn tiled_before(windows: Seq<Window>, n: int) -> int
    decreases n,
{
    if n <= 0 {
        0
    } else {
        tiled_before(windows, n - 1) + if windows[n - 1].mode == WindowMode::Tiled { 1int } else { 0 }
    }
}

pub open spec fn tiled_count(windows: Seq<Window>) -> int {
    tiled_before(windows, windows.len() as int)
}

/// `s` without `idx`.
pub open spec fn order_without(s: Seq<usize>, idx: usize) -> Seq<usize>
    decreases s.len(),
{
    if s.len() == 0 {
        s
    } else if s.last() == idx {
        order_without(s.drop_last(), idx)
    } else {
        order_without(s.drop_last(), idx).push(s.last())
    }
}

/// Indices after the window at `idx` is gone: those above it move down by one.
pub open spec fn renumbered(s: Seq<usize>, idx: usize) -> Seq<usize> {
    Seq::new(s.len(), |i: int| if s[i] > idx { (s[i] - 1) as usize } else { s[i] })
}

/// The order names each floating window once, and nothing else.
pub open spec fn order_matches(windows: Seq<Window>, order: Seq<usize>) -> bool {
    &&& order.no_duplicates()
    &&& forall|i: int| 0 <= i < order.len() ==> (#[trigger] order[i]) < windows.len()
        && windows[order[i] as int].mode == WindowMode::Floating
    &&& forall|w: usize| w < windows.len() && (#[trigger] windows[w as int]).mode == WindowMode::Floating
        ==> order.contains(w)
}

/// At most four windows are tiled, and the floating order matches the windows.
pub open spec fn windows_wf(windows: Seq<Window>, order: Seq<usize>) -> bool {
    tiled_count(windows) <= 4 && order_matches(windows, order)
}

/// The focus is on a window, or on number 0.
pub open spec fn focus_valid(windows: Seq<Window>, focused: usize) -> bool {
    focused < windows.len() || focused == 0
}

pub proof fn lemma_tiled_prefix(a: Seq<Window>, b: Seq<Window>, n: int)
    requires
        n <= a.len(),
        n <= b.len(),
        forall|i: int| 0 <= i < n ==> a[i].mode == b[i].mode,
    ensures
        tiled_before(a, n) == tiled_before(b, n),
    decreases n,
{
    if n > 0 {
        lemma_tiled_prefix(a, b, n - 1);
    }
}

pub proof fn lemma_tiled_bounds(windows: Seq<Window>, n: int)
    requires
        0 <= n <= windows.len(),
    ensures
        0 <= tiled_before(windows, n) <= n,
        tiled_before(windows, n) <= tiled_count(windows),
    decreases windows.len() - n,
{
    lemma_tiled_nonneg(windows, n);
    if n < windows.len() {
        lemma_tiled_bounds(windows, n + 1);
    }
}

proof fn lemma_tiled_nonneg(windows: Seq<Window>, n: int)
    requires
        0 <= n <= windows.len(),
    ensures
        0 <= tiled_before(windows, n) <= n,
    decreases n,
{
    if n > 0 {
        lemma_tiled_nonneg(windows, n - 1);
    }
}

/// Changing the mode of one window changes the count by that window.
proof fn lemma_tiled_update(windows: Seq<Window>, idx: int, w: Window, n: int)
    requires
        0 <= idx < windows.len(),
        0 <= n <= windows.len(),
    ensures
        tiled_before(windows.update(idx, w), n) == tiled_before(windows, n) + (if idx < n {
            (if w.mode == WindowMode::Tiled { 1int } else { 0 })
                - (if windows[idx].mode == WindowMode::Tiled { 1int } else { 0 })
        } else {
            0
        }),
    decreases n,
{
    if n > 0 {
        lemma_tiled_update(windows, idx, w, n - 1);
    }
}

/// Removing a window removes it from the count.
proof fn lemma_tiled_remove(windows: Seq<Window>, idx: int, n: int)
    requires
        0 <= idx < windows.len(),
        idx <= n < windows.len(),
    ensures
        tiled_before(windows.remove(idx), n) == tiled_before(windows, n + 1)
            - (if windows[idx].mode == WindowMode::Tiled { 1int } else { 0 }),
    decreases n,
{
    if n > idx {
        lemma_tiled_remove(windows, idx, n - 1);
        assert(windows.remove(idx)[n - 1] == windows[n]);
    } else {
        lemma_tiled_prefix(windows.remove(idx), windows, idx);
    }
}

/// Taking an index out of an order keeps the others, in their order.
pub proof fn lemma_order_without(s: Seq<usize>, idx: usize)
    requires
        s.no_duplicates(),
    ensures
        order_without(s, idx).no_duplicates(),
        !order_without(s, idx).contains(idx),
        forall|w: usize| w != idx ==> #[trigger] order_without(s, idx).contains(w) == s.contains(w),
        order_without(s, idx).len() == s.len() - (if s.contains(idx) { 1int } else { 0 }),
    decreases s.len(),
{
    if s.len() > 0 {
        let d = s.drop_last();
        assert(d.no_duplicates());
        lemma_order_without(d, idx);
        let r = order_without(d, idx);
        assert(s =~= d.push(s.last()));
        assert(!d.contains(s.last())) by {
            if d.contains(s.last()) {
                let i = choose|i: int| 0 <= i < d.len() && d[i] == s.last();
                assert(s[i] == s[s.len() - 1]);
            }
        }
        assert forall|w: usize| #![auto] s.contains(w) == (d.contains(w) || w == s.last()) by {
            if d.contains(w) {
                let i = choose|i: int| 0 <= i < d.len() && d[i] == w;
                assert(s[i] == w);
            }
            if w == s.last() {
                assert(s[s.len() - 1] == w);
            }
            if s.contains(w) && w != s.last() {
                let i = choose|i: int| 0 <= i < s.len() && s[i] == w;
                assert(d[i] == w);
            }
        }
        if s.last() != idx {
            let p = r.push(s.last());
            assert(!r.contains(s.last()));
            assert forall|w: usize| #![auto] p.contains(w) == (r.contains(w) || w == s.last()) by {
                if r.contains(w) {
                    let i = choose|i: int| 0 <= i < r.len() && r[i] == w;
                    assert(p[i] == w);
                }
                if w == s.last() {
                    assert(p[p.len() - 1] == w);
                }
                if p.contains(w) && w != s.last() {
                    let i = choose|i: int| 0 <= i < p.len() && p[i] == w;
                    assert(r[i] == w);
                }
            }
            assert(p.no_duplicates()) by {
                assert forall|i: int, j: int| 0 <= i < p.len() && 0 <= j < p.len() && i != j implies
                    p[i] != p[j] by {
                    if i == p.len() - 1 {
                        assert(r[j] != s.last()) by {
                            assert(r.contains(r[j]));
                        }
                    } else if j == p.len() - 1 {
                        assert(r[i] != s.last()) by {
                            assert(r.contains(r[i]));
                        }
                    }
                }
            }
        }
    }
}

proof fn lemma_order_push(s: Seq<usize>, idx: usize)
    requires
        s.no_duplicates(),
        !s.contains(idx),
    ensures
        s.push(idx).no_duplicates(),
        s.push(idx).contains(idx),
        forall|w: usize| s.contains(w) ==> #[trigger] s.push(idx).contains(w),
{
    let p = s.push(idx);
    assert(p[p.len() - 1] == idx);
    assert forall|w: usize| s.contains(w) implies #[trigger] p.contains(w) by {
        let i = choose|i: int| 0 <= i < s.len() && s[i] == w;
        assert(p[i] == w);
    }
    assert forall|i: int, j: int| 0 <= i < p.len() && 0 <= j < p.len() && i != j implies p[i] != p[j] by {
        if i == s.len() {
            assert(s.contains(s[j]));
        } else if j == s.len() {
            assert(s.contains(s[i]));
        }
    }
}

/// Remove `idx` from an order.
fn retain_other(order: &mut Vec<usize>, idx: usize)
    ensures
        final(order)@ == order_without(old(order)@, idx),
{
    let mut kept: Vec<usize> = Vec::new();
    let mut i: usize = 0;
    assert(order@.subrange(0, 0) =~= Seq::empty());
    while i < order.len()
        invariant
            i <= order@.len(),
            order@ == old(order)@,
            kept@ == order_without(order@.subrange(0, i as int), idx),
        decreases order@.len() - i,
    {
        assert(order@.subrange(0, i + 1).drop_last() =~= order@.subrange(0, i as int));
        assert(order@.subrange(0, i + 1).last() == order@[i as int]);
        if order[i] != idx {
            kept.push(order[i]);
        }
        i += 1;
    }
    assert(order@.subrange(0, order@.len() as int) =~= order@);
    *order = kept;
}

pub open spec fn sat_sub(a: int, b: int) -> int {
    if a >= b { a - b } else { 0 }
}

/// Where a floating window of 640 by 400 pixels is centred below the top bar.
pub open spec fn float_x(width: int, m: DecorMetrics) -> int {
    sat_sub(width, 640 + m.extra_w) / 2
}

pub open spec fn float_y(height: int, m: DecorMetrics) -> int {
    28 + sat_sub(height - 28, 400 + m.extra_h) / 2
}

/// The windows, their order and the focus after window `idx` was closed.
pub open spec fn after_removal(windows: Seq<Window>, order: Seq<usize>, focused: int, idx: int) -> (
    Seq<Window>,
    Seq<usize>,
    int,
) {
    (
        windows.remove(idx),
        renumbered(order_without(order, idx as usize), idx as usize),
        if windows.len() == 1 {
            0
        } else if focused == idx {
            sat_sub(idx, 1)
        } else if focused > idx {
            focused - 1
        } else {
            focused
        },
    )
}

/// The order of the floating windows after one was raised.
pub open spec fn raised(order: Seq<usize>, idx: usize) -> Seq<usize> {
    order_without(order, idx).push(idx)
}

/// A window moved to a place, as far as the screen reaches.
pub open spec fn moved_to(
    w: Window, x: u16, y: u16, width: int, height: int, m: DecorMetrics,
) -> Window {
    let max_x = sat_sub(width, w.last_width + m.extra_w);
    let max_y = height - (w.last_height + m.extra_h);
    Window {
        x: if x <= max_x { x } else { max_x as u16 },
        y: if y < 28 { 28 } else if y > max_y { max_y as u16 } else { y },
        ..w
    }
}

impl Compositor {
    pub open spec fn bpp(&self) -> int {
        self.depth.bytes()
    }

    /// Screen and scratch buffer have the same geometry, and bytes for each pixel.
    pub open spec fn geometry_wf(&self) -> bool {
        &&& self.fb.width == self.scratch.width
        &&& self.fb.height == self.scratch.height
        &&& self.fb.stride == self.scratch.stride
        &&& self.fb.origin == 0
        &&& self.scratch.origin == 0
        &&& self.fb@.fits(0, 0, self.fb.width as int, self.fb.height as int, self.bpp())
        &&& self.scratch@.fits(0, 0, self.fb.width as int, self.fb.height as int, self.bpp())
        &&& 28 <= self.fb.height
        &&& 0 < self.fb.width
        &&& self.metrics.wf()
        &&& 640 + self.metrics.extra_w <= u16::MAX
        &&& 400 + self.metrics.extra_h <= u16::MAX
        &&& self.current_cursor.wf()
        &&& self.cursor_x <= self.fb.width
        &&& self.cursor_y <= self.fb.height
    }

    pub open spec fn wf(&self) -> bool {
        &&& self.geometry_wf()
        &&& windows_wf(self.windows@, self.float_order@)
        &&& regions_wf(self.dirty_regions@)
        &&& self.topbar_state.wf()
    }

    /// A compositor for a screen, with no windows and the desktop drawn.
    pub fn new(fb: Framebuffer, depth: ColorDepth, metrics: DecorMetrics) -> (r: Self)
        requires
            fb.origin == 0,
            28 <= fb.height,
            0 < fb.width,
            fb.width * depth.bytes() <= fb.stride,
            fb@.fits(0, 0, fb.width as int, fb.height as int, depth.bytes()),
            metrics.wf(),
            640 + metrics.extra_w <= u16::MAX,
            400 + metrics.extra_h <= u16::MAX,
        ensures
            r.wf(),
            r.fb == fb,
            r.depth == depth,
            r.metrics == metrics,
            r.force_redraw,
            r.windows@.len() == 0,
            r.float_order@.len() == 0,
            r.dirty_regions@.len() == 0,
            r.focused_window == 0,
            r.drag_render.is_none(),
            r.hit_map@.len() == 0,
            r.topbar_state@ == initial_bar(),
            r.cursor_x == 0 && r.cursor_y == 0,
            r.current_cursor.width == 16 && r.current_cursor.height == 16,
            r.current_cursor.bitmap@ == default_cursor(),
            r.scratch@ == (Frame {
                width: fb.width,
                height: fb.height,
                stride: fb.stride,
                origin: 0,
                pixels: Seq::new(page_rounded(fb.stride * fb.height) as nat, |i: int| 0u8),
            }).filled(0, 0, fb.width as int, fb.height as int, DESKTOP_BG, depth.bytes()),
    {
        assert(fb.stride * fb.height <= 0xffff * 0xffff) by (nonlinear_arith)
            requires 0 <= fb.stride <= 0xffff, 0 <= fb.height <= 0xffff;
        assert(0 <= fb.stride * fb.height) by (nonlinear_arith)
            requires 0 <= fb.stride, 0 <= fb.height;
        let visible: u64 = fb.stride as u64 * fb.height as u64;
        let pages: u64 = (visible + 0xfff) / 0x1000;
        let size: u64 = pages * 0x1000;
        let pixels: Vec<u8> = vec![0u8; size as usize];
        let mut scratch: Framebuffer = Framebuffer {
            width: fb.width,
            height: fb.height,
            stride: fb.stride,
            origin: 0,
            pixels,
        };
        proof {
            assert(pixels@ =~= Seq::new(size as nat, |i: int| 0u8));
            let (w, h, st) = (fb.width as int, fb.height as int, fb.stride as int);
            assert((h - 1) * st + st == st * h) by (nonlinear_arith);
            assert(scratch@.at(0, 0, depth.bytes()) == 0);
        }
        let bpp: usize = depth.to_usize();
        scratch.fill(0, 0, fb.width as usize, fb.height as usize, DESKTOP_BG, bpp);
        let r = Compositor {
            depth,
            fb,
            scratch,
            force_redraw: true,
            cursor_x: 0,
            cursor_y: 0,
            current_cursor: Cursor { width: 16, height: 16, bitmap: default_cursor_rows() },
            dirty_regions: Vec::new(),
            windows: Vec::new(),
            focused_window: 0,
            float_order: Vec::new(),
            drag_render: None,
            hit_map: HitMap::new(),
            topbar_state: TopBarState::new(),
            metrics,
        };
        r
    }

    /// Fill a region of the scratch buffer with the desktop colour.
    pub fn draw_bg(&mut self, region: Region)
        requires
            old(self).wf(),
            region.wf(),
            old(self).scratch@.fits(
                region.x as int, region.y as int, region.width as int, region.height as int,
                old(self).bpp(),
            ),
        ensures
            final(self).wf(),
            final(self).scratch@ == old(self).scratch@.filled(
                region.x as int, region.y as int, region.width as int, region.height as int,
                DESKTOP_BG, old(self).bpp(),
            ),
            final(self).scratch@.same_shape(old(self).scratch@),
            *final(self) == (Compositor { scratch: final(self).scratch, ..*old(self) }),
    {
        let bpp: usize = self.depth.to_usize();
        self.scratch.fill(
            region.x as usize, region.y as usize, region.width as usize, region.height as usize,
            DESKTOP_BG, bpp,
        );
    }

    /// Mark a region for the next copy to the screen.
    pub fn add_dirty(&mut self, region: Region)
        requires
            old(self).wf(),
            region.wf(),
        ensures
            final(self).wf(),
            final(self).dirty_regions@ == dirty_with(old(self).dirty_regions@, region),
            *final(self) == (Compositor { dirty_regions: final(self).dirty_regions, ..*old(self) }),
    {
        add_dirty_region(&mut self.dirty_regions, region);
    }

    fn count_tiled(&self) -> (r: usize)
        ensures
            r == tiled_count(self.windows@),
    {
        let mut n: usize = 0;
        let mut i: usize = 0;
        while i < self.windows.len()
            invariant
                i <= self.windows@.len(),
                n == tiled_before(self.windows@, i as int),
                n <= i,
            decreases self.windows@.len() - i,
        {
            if self.windows[i].mode == WindowMode::Tiled {
                n += 1;
            }
            i += 1;
        }
        n
    }

    /// The windows and their order after the mode of one was toggled.
    pub open spec fn toggled(&self, idx: int) -> (Seq<Window>, Seq<usize>) {
        let w = self.windows@[idx];
        if w.mode == WindowMode::Tiled {
            (
                self.windows@.update(
                    idx,
                    Window {
                        mode: WindowMode::Floating,
                        x: float_x(self.fb.width as int, self.metrics) as u16,
                        y: float_y(self.fb.height as int, self.metrics) as u16,
                        ..w
                    },
                ),
                self.float_order@.push(idx as usize),
            )
        } else {
            (
                self.windows@.update(idx, Window { mode: WindowMode::Tiled, ..w }),
                order_without(self.float_order@, idx as usize),
            )
        }
    }

    /// The toggle is allowed: a floating window needs a free tile.
    pub open spec fn can_toggle(&self, idx: int) -> bool {
        0 <= idx < self.windows@.len() && (self.windows@[idx].mode == WindowMode::Tiled
            || tiled_count(self.windows@) < 4)
    }

    /// Toggle a window between tiled and floating. With four tiled windows a
    /// floating window stays floating.
    pub fn try_toggle_window_mode(&mut self, idx: usize)
        requires
            old(self).wf(),
        ensures
            final(self).wf(),
            old(self).can_toggle(idx as int) ==> {
                &&& (final(self).windows@, final(self).float_order@) == old(self).toggled(idx as int)
                &&& final(self).force_redraw
            },
            !old(self).can_toggle(idx as int) ==> *final(self) == *old(self),
            *final(self) == (Compositor {
                windows: final(self).windows,
                float_order: final(self).float_order,
                force_redraw: final(self).force_redraw,
                ..*old(self)
            }),
    {
        if idx >= self.windows.len() {
            return;
        }
        let window: Window = self.windows[idx];
        let ghost before = self.windows@;
        let ghost order = self.float_order@;
        match window.mode {
            WindowMode::Tiled => {
                let content_w: u16 = 640 + self.metrics.extra_w;
                let content_h: u16 = 400 + self.metrics.extra_h;
                let x: u16 = self.fb.width.saturating_sub(content_w) / 2;
                let y: u16 = TOP_BAR_HEIGHT
                    + (self.fb.height - TOP_BAR_HEIGHT).saturating_sub(content_h) / 2;
                let new: Window = Window { mode: WindowMode::Floating, x, y, ..window };
                self.windows[idx] = new;
                self.float_order.push(idx);
                self.force_redraw = true;
                proof {
                    lemma_tiled_update(before, idx as int, new, before.len() as int);
                    assert(!order.contains(idx)) by {
                        if order.contains(idx) {
                            let i = choose|i: int| 0 <= i < order.len() && order[i] == idx;
                            assert(before[order[i] as int].mode == WindowMode::Floating);
                        }
                    }
                    lemma_order_push(order, idx);
                    assert(order_matches(self.windows@, self.float_order@)) by {
                        assert forall|w: usize| w < self.windows@.len()
                            && (#[trigger] self.windows@[w as int]).mode == WindowMode::Floating implies
                            self.float_order@.contains(w) by {
                            if w != idx {
                                assert(before[w as int].mode == WindowMode::Floating);
                            }
                        }
                    }
                }
            }
            WindowMode::Floating => {
                let tiled: usize = self.count_tiled();
                if tiled >= 4 {
                    return;
                }
                let new: Window = Window { mode: WindowMode::Tiled, ..window };
                self.windows[idx] = new;
                retain_other(&mut self.float_order, idx);
                self.force_redraw = true;
                proof {
                    lemma_tiled_update(before, idx as int, new, before.len() as int);
                    lemma_order_without(order, idx);
                    assert(order_matches(self.windows@, self.float_order@)) by {
                        let o = self.float_order@;
                        assert forall|i: int| 0 <= i < o.len() implies (#[trigger] o[i]) < self.windows@.len()
                            && self.windows@[o[i] as int].mode == WindowMode::Floating by {
                            assert(o.contains(o[i]));
                            assert(order.contains(o[i]));
                            let k = choose|k: int| 0 <= k < order.len() && order[k] == o[i];
                            assert(before[order[k] as int].mode == WindowMode::Floating);
                        }
                        assert forall|w: usize| w < self.windows@.len()
                            && (#[trigger] self.windows@[w as int]).mode == WindowMode::Floating implies
                            o.contains(w) by {
                            assert(before[w as int].mode == WindowMode::Floating);
                        }
                    }
                }
            }
        }
    }

    /// The focus after the window at `idx` is gone.
    pub open spec fn focus_after_removal(&self, idx: int) -> int {
        if self.windows@.len() == 1 {
            0
        } else if self.focused_window == idx {
            sat_sub(idx, 1)
        } else if self.focused_window > idx {
            self.focused_window - 1
        } else {
            self.focused_window as int
        }
    }

    /// Remove a window and renumber all that refers to windows. Returns the
    /// console that the window showed.
    pub fn remove_window(&mut self, idx: usize) -> (r: Option<usize>)
        requires
            old(self).wf(),
        ensures
            final(self).wf(),
            idx >= old(self).windows@.len() ==> r.is_none() && *final(self) == *old(self),
            idx < old(self).windows@.len() ==> {
                &&& r == Some(old(self).windows@[idx as int].console_index)
                &&& final(self).windows@ == old(self).windows@.remove(idx as int)
                &&& final(self).float_order@ == renumbered(
                    order_without(old(self).float_order@, idx), idx,
                )
                &&& final(self).focused_window == old(self).focus_after_removal(idx as int)
                &&& final(self).force_redraw
                &&& (final(self).windows@, final(self).float_order@, final(self).focused_window as int)
                    == after_removal(
                    old(self).windows@, old(self).float_order@, old(self).focused_window as int,
                    idx as int,
                )
            },
            focus_valid(old(self).windows@, old(self).focused_window) ==> focus_valid(
                final(self).windows@, final(self).focused_window,
            ),
            *final(self) == (Compositor {
                windows: final(self).windows,
                float_order: final(self).float_order,
                focused_window: final(self).focused_window,
                force_redraw: final(self).force_redraw,
                ..*old(self)
            }),
    {
        if idx >= self.windows.len() {
            return None;
        }
        let ghost before = self.windows@;
        let ghost order = self.float_order@;
        let console_index: usize = self.windows[idx].console_index;
        self.windows.remove(idx);
        retain_other(&mut self.float_order, idx);
        let ghost kept = self.float_order@;
        let mut i: usize = 0;
        while i < self.float_order.len()
            invariant
                i <= self.float_order@.len() == kept.len(),
                forall|k: int| 0 <= k < i ==> #[trigger] self.float_order@[k] == renumbered(kept, idx)[k],
                forall|k: int| i <= k < kept.len() ==> #[trigger] self.float_order@[k] == kept[k],
                self.windows@ == before.remove(idx as int),
                *self == (Compositor {
                    windows: self.windows,
                    float_order: self.float_order,
                    ..*old(self)
                }),
            decreases self.float_order@.len() - i,
        {
            let fi: usize = self.float_order[i];
            if fi > idx {
                self.float_order[i] = fi - 1;
            }
            i += 1;
        }
        proof {
            assert(self.float_order@ =~= renumbered(kept, idx));
            lemma_order_without(order, idx);
            lemma_tiled_remove(before, idx as int, before.len() - 1);
            lemma_removed_order(before, order, idx);
        }
        if self.windows.len() == 0 {
            self.focused_window = 0;
        } else if self.focused_window == idx {
            self.focused_window = idx.saturating_sub(1);
        } else if self.focused_window > idx {
            self.focused_window = self.focused_window - 1;
        }
        self.force_redraw = true;
        Some(console_index)
    }

    /// Put a floating window on top; other windows stay where they are.
    pub fn raise_window(&mut self, idx: usize)
        requires
            old(self).wf(),
        ensures
            final(self).wf(),
            old(self).floating(idx as int) ==> {
                &&& final(self).float_order@ == order_without(old(self).float_order@, idx).push(idx)
                &&& final(self).float_order@ == raised(old(self).float_order@, idx)
                &&& final(self).force_redraw
            },
            !old(self).floating(idx as int) ==> *final(self) == *old(self),
            *final(self) == (Compositor {
                float_order: final(self).float_order,
                force_redraw: final(self).force_redraw,
                ..*old(self)
            }),
    {
        if self.is_window_floating(idx) {
            let ghost order = self.float_order@;
            retain_other(&mut self.float_order, idx);
            proof {
                lemma_order_without(order, idx);
                lemma_order_push(order_without(order, idx), idx);
            }
            self.float_order.push(idx);
            self.force_redraw = true;
            proof {
                let o = self.float_order@;
                let kept = order_without(order, idx);
                assert forall|i: int| 0 <= i < o.len() implies (#[trigger] o[i]) < self.windows@.len()
                    && self.windows@[o[i] as int].mode == WindowMode::Floating by {
                    if i < kept.len() {
                        assert(kept.contains(kept[i]));
                        assert(order.contains(o[i]));
                        let k = choose|k: int| 0 <= k < order.len() && order[k] == o[i];
                        assert(self.windows@[order[k] as int].mode == WindowMode::Floating);
                    }
                }
                assert forall|w: usize| w < self.windows@.len()
                    && (#[trigger] self.windows@[w as int]).mode == WindowMode::Floating implies
                    o.contains(w) by {
                    assert(order.contains(w));
                    if w != idx {
                        assert(kept.contains(w));
                    }
                }
            }
        }
    }

    pub open spec fn floating(&self, idx: int) -> bool {
        0 <= idx < self.windows@.len() && self.windows@[idx].mode == WindowMode::Floating
    }

    /// The console of the focused window, or the first console.
    pub fn focused_console(&self) -> (r: usize)
        ensures
            r == (if self.focused_window < self.windows@.len() {
                self.windows@[self.focused_window as int].console_index
            } else {
                0
            }),
    {
        self.window_console(self.focused_window)
    }

    /// The console that a window shows, or the first console.
    pub fn window_console(&self, window_idx: usize) -> (r: usize)
        ensures
            r == (if window_idx < self.windows@.len() {
                self.windows@[window_idx as int].console_index
            } else {
                0
            }),
    {
        if window_idx < self.windows.len() { self.windows[window_idx].console_index } else { 0 }
    }

    pub fn window_count(&self) -> (r: usize)
        ensures
            r == self.windows@.len(),
    {
        self.windows.len()
    }

    /// Move a window, within the screen and below the top bar.
    pub fn move_window(&mut self, idx: usize, x: u16, y: u16)
        requires
            old(self).wf(),
            idx < old(self).windows@.len() ==> {
                let w = old(self).windows@[idx as int];
                &&& w.last_width + old(self).metrics.extra_w <= u16::MAX
                &&& 28 + w.last_height + old(self).metrics.extra_h <= old(self).fb.height
            },
        ensures
            final(self).wf(),
            idx >= old(self).windows@.len() ==> *final(self) == *old(self),
            idx < old(self).windows@.len() ==> {
                let w = old(self).windows@[idx as int];
                let max_x = sat_sub(
                    old(self).fb.width as int, w.last_width + old(self).metrics.extra_w,
                );
                let max_y = old(self).fb.height - (w.last_height + old(self).metrics.extra_h);
                &&& final(self).windows@ == old(self).windows@.update(
                    idx as int,
                    Window {
                        x: if x <= max_x { x } else { max_x as u16 },
                        y: if y < 28 { 28 } else if y > max_y { max_y as u16 } else { y },
                        ..w
                    },
                )
                &&& final(self).windows@ == old(self).windows@.update(
                    idx as int,
                    moved_to(
                        w, x, y, old(self).fb.width as int, old(self).fb.height as int,
                        old(self).metrics,
                    ),
                )
                &&& final(self).force_redraw == (old(self).force_redraw
                    || old(self).drag_render.is_none())
            },
            *final(self) == (Compositor {
                windows: final(self).windows,
                force_redraw: final(self).force_redraw,
                ..*old(self)
            }),
    {
        if idx < self.windows.len() {
            let window: Window = self.windows[idx];
            let total_w: u16 = window.last_width + self.metrics.extra_w;
            let total_h: u16 = window.last_height + self.metrics.extra_h;
            let max_x: u16 = self.fb.width.saturating_sub(total_w);
            let max_y: u16 = self.fb.height.saturating_sub(total_h);
            let new_x: u16 = if x <= max_x { x } else { max_x };
            let new_y: u16 = if y < TOP_BAR_HEIGHT {
                TOP_BAR_HEIGHT
            } else if y > max_y {
                max_y
            } else {
                y
            };
            let ghost before = self.windows@;
            let new: Window = Window { x: new_x, y: new_y, ..window };
            self.windows[idx] = new;
            proof {
                lemma_tiled_update(before, idx as int, new, before.len() as int);
                assert forall|w: usize| w < self.windows@.len()
                    && (#[trigger] self.windows@[w as int]).mode == WindowMode::Floating implies
                    self.float_order@.contains(w) by {
                    assert(before[w as int].mode == WindowMode::Floating);
                }
            }
            if self.drag_render.is_none() {
                self.force_redraw = true;
            }
        }
    }

    pub fn get_window_x(&self, idx: usize) -> (r: u16)
        ensures
            r == (if idx < self.windows@.len() { self.windows@[idx as int].x } else { 0 }),
    {
        if idx < self.windows.len() { self.windows[idx].x } else { 0 }
    }

    pub fn get_window_y(&self, idx: usize) -> (r: u16)
        ensures
            r == (if idx < self.windows@.len() { self.windows@[idx as int].y } else { 0 }),
    {
        if idx < self.windows.len() { self.windows[idx].y } else { 0 }
    }

    pub fn is_window_floating(&self, idx: usize) -> (r: bool)
        ensures
            r == self.floating(idx as int),
    {
        idx < self.windows.len() && self.windows[idx].mode == WindowMode::Floating
    }

    pub fn is_dragging(&self) -> (r: bool)
        ensures
            r == self.drag_render.is_some(),
    {
        self.drag_render.is_some()
    }

    /// End a drag; the picture of the window is dropped.
    pub fn end_drag(&mut self)
        requires
            old(self).wf(),
        ensures
            final(self).wf(),
            final(self).drag_render.is_none(),
            final(self).force_redraw == (old(self).force_redraw || old(self).drag_render.is_some()),
            *final(self) == (Compositor {
                drag_render: None,
                force_redraw: final(self).force_redraw,
                ..*old(self)
            }),
    {
        if self.drag_render.is_some() {
            self.drag_render = None;
            self.force_redraw = true;
        }
    }

    /// The window that showing a console adds: tiled while there are fewer than
    /// four tiles, else floating, each a little further right and down.
    pub open spec fn added(&self, console_index: usize) -> Window {
        if tiled_count(self.windows@) >= 4 {
            let offset = self.float_order@.len() * 20;
            Window {
                console_index,
                mode: WindowMode::Floating,
                x: (float_x(self.fb.width as int, self.metrics) + offset) as u16,
                y: (float_y(self.fb.height as int, self.metrics) + offset) as u16,
                last_width: 0,
                last_height: 0,
            }
        } else {
            Window {
                console_index,
                mode: WindowMode::Tiled,
                x: 0,
                y: 28,
                last_width: 0,
                last_height: 0,
            }
        }
    }

    /// Show a console in a new window.
    pub fn add_window(&mut self, console_index: usize)
        requires
            old(self).wf(),
            tiled_count(old(self).windows@) >= 4 ==> {
                let offset = old(self).float_order@.len() * 20;
                &&& float_x(old(self).fb.width as int, old(self).metrics) + offset <= u16::MAX
                &&& float_y(old(self).fb.height as int, old(self).metrics) + offset <= u16::MAX
            },
        ensures
            final(self).wf(),
            final(self).windows@ == old(self).windows@.push(old(self).added(console_index)),
            final(self).float_order@ == (if tiled_count(old(self).windows@) >= 4 {
                old(self).float_order@.push(old(self).windows@.len() as usize)
            } else {
                old(self).float_order@
            }),
            final(self).force_redraw,
            *final(self) == (Compositor {
                windows: final(self).windows,
                float_order: final(self).float_order,
                force_redraw: true,
                ..*old(self)
            }),
    {
        let tiled: usize = self.count_tiled();
        let mode: WindowMode = if tiled >= 4 { WindowMode::Floating } else { WindowMode::Tiled };
        let mut window: Window = Window {
            console_index,
            mode,
            x: 0,
            y: TOP_BAR_HEIGHT,
            last_width: 0,
            last_height: 0,
        };
        let ghost before = self.windows@;
        let ghost order = self.float_order@;
        if tiled >= 4 {
            let content_w: u16 = 640 + self.metrics.extra_w;
            let content_h: u16 = 400 + self.metrics.extra_h;
            let offset: u16 = self.float_order.len() as u16 * 20;
            window.x = self.fb.width.saturating_sub(content_w) / 2 + offset;
            window.y = TOP_BAR_HEIGHT
                + (self.fb.height - TOP_BAR_HEIGHT).saturating_sub(content_h) / 2 + offset;
        }
        self.windows.push(window);
        proof {
            lemma_tiled_prefix(self.windows@, before, before.len() as int);
        }
        if tiled >= 4 {
            let idx: usize = self.windows.len() - 1;
            proof {
                assert(!order.contains(idx)) by {
                    if order.contains(idx) {
                        let i = choose|i: int| 0 <= i < order.len() && order[i] == idx;
                        assert(order[i] < before.len());
                    }
                }
                lemma_order_push(order, idx);
            }
            self.float_order.push(idx);
        }
        self.force_redraw = true;
        proof {
            let o = self.float_order@;
            let ws = self.windows@;
            assert forall|i: int| 0 <= i < o.len() implies (#[trigger] o[i]) < ws.len()
                && ws[o[i] as int].mode == WindowMode::Floating by {
                if i < order.len() {
                    assert(o[i] == order[i]);
                    assert(before[order[i] as int].mode == WindowMode::Floating);
                }
            }
            assert forall|w: usize| w < ws.len()
                && (#[trigger] ws[w as int]).mode == WindowMode::Floating implies o.contains(w) by {
                if w < before.len() {
                    assert(before[w as int].mode == WindowMode::Floating);
                    assert(order.contains(w));
                }
            }
        }
    }
}

/// The order still matches once a window is gone and the rest is renumbered.
proof fn lemma_removed_order(windows: Seq<Window>, order: Seq<usize>, idx: usize)
    requires
        order_matches(windows, order),
        idx < windows.len() <= usize::MAX,
    ensures
        order_matches(windows.remove(idx as int), renumbered(order_without(order, idx), idx)),
{
    lemma_order_without(order, idx);
    let kept = order_without(order, idx);
    let o = renumbered(kept, idx);
    let ws = windows.remove(idx as int);
    assert forall|i: int| 0 <= i < kept.len() implies (#[trigger] kept[i]) != idx && kept[i] < windows.len()
        && windows[kept[i] as int].mode == WindowMode::Floating by {
        assert(kept.contains(kept[i]));
        assert(order.contains(kept[i]));
        let k = choose|k: int| 0 <= k < order.len() && order[k] == kept[i];
        assert(windows[order[k] as int].mode == WindowMode::Floating);
    }
    assert forall|i: int| 0 <= i < o.len() implies (#[trigger] o[i]) < ws.len()
        && ws[o[i] as int].mode == WindowMode::Floating by {
        assert(kept[i] != idx);
    }
    assert forall|i: int, j: int| 0 <= i < o.len() && 0 <= j < o.len() && i != j implies o[i] != o[j] by {
        assert(kept[i] != idx && kept[j] != idx && kept[i] != kept[j]);
    }
    assert forall|w: usize| w < ws.len() && (#[trigger] ws[w as int]).mode == WindowMode::Floating implies
        o.contains(w) by {
        let orig: usize = if w < idx { w } else { (w + 1) as usize };
        assert(windows[orig as int].mode == WindowMode::Floating);
        assert(order.contains(orig));
        assert(kept.contains(orig));
        let k = choose|k: int| 0 <= k < kept.len() && kept[k] == orig;
        assert(o[k] == w);
    }
}

/// Removing the window that was just added gives the old windows and order back.
pub proof fn remove_undoes_add(windows: Seq<Window>, order: Seq<usize>, w: Window)
    requires
        windows_wf(windows, order),
        windows.len() < usize::MAX,
    ensures
        windows.push(w).remove(windows.len() as int) == windows,
        renumbered(
            order_without(order.push(windows.len() as usize), windows.len() as usize),
            windows.len() as usize,
        ) == order,
        renumbered(order_without(order, windows.len() as usize), windows.len() as usize) == order,
{
    let n = windows.len() as usize;
    assert(windows.push(w).remove(windows.len() as int) =~= windows);
    assert(order.push(n).drop_last() =~= order);
    lemma_order_without_absent(order, n);
    assert(renumbered(order, n) =~= order);
}

proof fn lemma_order_without_absent(s: Seq<usize>, idx: usize)
    requires
        forall|i: int| 0 <= i < s.len() ==> #[trigger] s[i] != idx,
    ensures
        order_without(s, idx) == s,
    decreases s.len(),
{
    if s.len() > 0 {
        lemma_order_without_absent(s.drop_last(), idx);
        assert(s.drop_last().push(s.last()) =~= s);
    }
}

/// A byte count rounded up to whole pages.
pub open spec fn page_rounded(n: int) -> int {
    (n + 0xfff) / 0x1000 * 0x1000
}

/// The arrow pointer.
pub open spec fn default_cursor() -> Seq<u16> {
    seq![
        0x8000u16, 0xc000u16, 0xe000u16, 0xf000u16, 0xf800u16, 0xfc00u16, 0xfe00u16, 0xff00u16,
        0xff80u16, 0xffc0u16, 0xffe0u16, 0xfe00u16, 0xe600u16, 0xc600u16, 0x8300u16, 0x0300u16,
    ]
}

fn default_cursor_rows() -> (r: Vec<u16>)
    ensures
        r@ == default_cursor(),
{
    let r: Vec<u16> = vec![
        0x8000u16, 0xc000u16, 0xe000u16, 0xf000u16, 0xf800u16, 0xfc00u16, 0xfe00u16, 0xff00u16,
        0xff80u16, 0xffc0u16, 0xffe0u16, 0xfe00u16, 0xe600u16, 0xc600u16, 0x8300u16, 0x0300u16,
    ];
    assert(r@ =~= default_cursor());
    r
}

} // verus!
