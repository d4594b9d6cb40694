//! The top bar: active window name, desktop tabs and clock.
use vstd::prelude::*;

use crate::console::font::Font;
use crate::console::graphics::{
    regions_within, Region, ACCENT, ACCENT_ACTIVE, BAR_BG, BAR_TEXT, WIN_BORDER, WIN_TITLE_TEXT,
};
use crate::console::hit::{HitMap, HitTarget, HitZone};
use crate::console::ui::{Ui, UiSurface};

verus! {

pub const TOP_BAR_HEIGHT: u16 = 28;
pub const BORDER_HEIGHT: u16 = 3;
pub const DESKTOP_COUNT: u8 = 6;
pub const BUTTON_WIDTH: u16 = 24;
pub const BUTTONS_TOTAL_WIDTH: u16 = 144;

/// The part of the bar above its bottom border.
pub const BAR_HEIGHT: u16 = 25;

pub struct TopBarState {
    pub active_window_name: [u8; 40],
    pub active_name_len: u8,
    pub active_desktop: u8,
    /// One bit per desktop that has a window.
    pub occupied_desktops: u8,
    /// "HH:MM"
    pub clock_text: [u8; 5],
    pub hover: Option<HitTarget>,
    /// What the bar on screen shows.
    pub prev_active_desktop: u8,
    pub prev_hover: Option<HitTarget>,
    pub prev_clock: [u8; 5],
    pub prev_name_len: u8,
    pub needs_full_draw: bool,
}

/// What the desktop tabs show.
pub struct Tabs {
    pub active: u8,
    pub hover: Option<HitTarget>,
    pub occupied: u8,
}

impl TopBarState {
    pub open spec fn tabs(&self) -> Tabs {
        Tabs { active: self.active_desktop, hover: self.hover, occupied: self.occupied_desktops }
    }

    pub open spec fn wf(&self) -> bool {
        self.active_name_len <= 40
    }

    /// The name shown at the left of the bar.
    pub open spec fn name(&self) -> Seq<u8> {
        self.active_window_name@.subrange(0, self.active_name_len as int)
    }

    pub open spec fn desktop_changed(&self) -> bool {
        self.active_desktop != self.prev_active_desktop
    }

    pub open spec fn hover_changed(&self) -> bool {
        self.hover != self.prev_hover
    }

    pub open spec fn clock_changed(&self) -> bool {
        self.clock_text@ != self.prev_clock@
    }

    pub open spec fn name_changed(&self) -> bool {
        self.active_name_len != self.prev_name_len
    }

    /// Something on the bar differs from what is on screen.
    pub open spec fn stale(&self) -> bool {
        self.needs_full_draw || self.desktop_changed() || self.hover_changed()
            || self.clock_changed() || self.name_changed()
    }

    pub fn new() -> (r: Self)
        ensures
            r.wf(),
            r@ == initial_bar(),
    {
        let r = Self {
            active_window_name: [32u8; 40],
            active_name_len: 0,
            active_desktop: 1,
            occupied_desktops: 0x01,
            clock_text: [48u8, 48u8, 58u8, 48u8, 48u8],
            hover: None,
            prev_active_desktop: 0,
            prev_hover: None,
            prev_clock: [0u8, 0u8, 0u8, 0u8, 0u8],
            prev_name_len: 0,
            needs_full_draw: true,
        };
        assert(r.active_window_name@ =~= Seq::new(40, |i: int| 32u8));
        assert(r.clock_text@ =~= seq![48u8, 48u8, 58u8, 48u8, 48u8]);
        assert(r.prev_clock@ =~= seq![0u8, 0u8, 0u8, 0u8, 0u8]);
        r
    }

    /// Show `name`, cut to 40 bytes and padded with spaces.
    pub fn set_window_name(&mut self, name: &[u8])
        ensures
            final(self).wf(),
            final(self).active_name_len == (if name@.len() <= 40 { name@.len() as int } else { 40 }),
            final(self).active_window_name@ == Seq::new(
                40,
                |i: int| if i < name@.len() { name@[i] } else { 32u8 },
            ),
            *final(self) == (TopBarState {
                active_window_name: final(self).active_window_name,
                active_name_len: final(self).active_name_len,
                ..*old(self)
            }),
    {
        let len: usize = if name.len() <= 40 { name.len() } else { 40 };
        let mut i: usize = 0;
        while i < 40
            invariant
                i <= 40,
                len == (if name@.len() <= 40 { name@.len() as int } else { 40 }),
                forall|k: int| 0 <= k < i ==> #[trigger] self.active_window_name@[k] == (
                    if k < name@.len() { name@[k] } else { 32u8 }),
                *self == (TopBarState { active_window_name: self.active_window_name, ..*old(self) }),
            decreases 40 - i,
        {
            self.active_window_name[i] = if i < len { name[i] } else { 32u8 };
            i += 1;
        }
        self.active_name_len = len as u8;
        assert(self.active_window_name@ =~= Seq::new(
            40, |i: int| if i < name@.len() { name@[i] } else { 32u8 },
        ));
    }
}

pub open spec fn buttons_left(screen_width: int) -> int {
    (screen_width - 144) / 2
}

pub open spec fn text_top(font_height: int) -> int {
    if font_height <= 25 { (25 - font_height) / 2 } else { 0 }
}

/// The tabs of the desktops, left to right.
pub open spec fn tab_zones(screen_width: int) -> Seq<HitZone> {
    Seq::new(
        6,
        |i: int| HitZone {
            region: Region {
                x: (buttons_left(screen_width) + i * 24) as u16,
                y: 0,
                width: 24,
                height: 25,
            },
            target: HitTarget::DesktopTab((i + 1) as u8),
        },
    )
}

/// `n` horizontal lines, one below the other.
pub open spec fn lines(ui: Ui, x: int, y: int, w: int, color: u32, n: nat) -> Ui
    decreases n,
{
    if n == 0 {
        ui
    } else {
        lines(ui, x, y, w, color, (n - 1) as nat).hline(x, y + (n - 1), w, color)
    }
}

pub open spec fn digit_text(n: int) -> Seq<u8> {
    seq![(48 + n) as u8]
}

/// The tab of desktop `n`: its number, an underline if it is active or
/// hovered, a dot if it is occupied but not active.
pub open spec fn tab_drawn<F: Font>(ui: Ui, font: &F, tabs: Tabs, x: int, text_y: int, n: int) -> Ui {
    let active = n == tabs.active;
    let hovered = tabs.hover == Some(HitTarget::DesktopTab(n as u8));
    let occupied = tabs.occupied & (1u8 << ((n - 1) as u8)) != 0;
    let digit_x = x + (24 - font.text_width(digit_text(n))) / 2;
    let a = ui.text(font, digit_x, text_y, digit_text(n), if active { ACCENT_ACTIVE } else { BAR_TEXT });
    let b = if active {
        lines(a, x + 2, 22, 20, ACCENT_ACTIVE, 3)
    } else if hovered {
        lines(a, x + 2, 22, 20, ACCENT, 3)
    } else {
        a
    };
    if occupied && !active { b.hline(x + 10, 24, 4, BAR_TEXT) } else { b }
}

pub open spec fn tabs_drawn<F: Font>(
    ui: Ui, font: &F, tabs: Tabs, x: int, text_y: int, n: nat,
) -> Ui
    decreases n,
{
    if n == 0 {
        ui.fill(x, 0, 144, 25, BAR_BG)
    } else {
        tab_drawn(
            tabs_drawn(ui, font, tabs, x, text_y, (n - 1) as nat), font, tabs, x + (n - 1) * 24, text_y,
            n as int,
        )
    }
}

/// The surface after the bar was brought up to date.
pub open spec fn bar_drawn<F: Font>(ui: Ui, st: TopBarState, font: &F, screen_width: int) -> Ui {
    let full = st.needs_full_draw;
    let text_y = text_top(font.height() as int);
    let left = buttons_left(screen_width);
    let a = if full { ui.fill(0, 0, screen_width, 25, BAR_BG) } else { ui };
    let b = if full || st.name_changed() {
        let cleared = if !full { a.fill(0, 0, left, 25, BAR_BG) } else { a };
        if st.active_name_len > 0 {
            cleared.text(font, 10, text_y, st.name(), WIN_TITLE_TEXT)
        } else {
            cleared
        }
    } else {
        a
    };
    let c = if full || st.desktop_changed() || st.hover_changed() {
        tabs_drawn(b, font, st.tabs(), left, text_y, 6)
    } else {
        b
    };
    let d = if full || st.clock_changed() {
        let cleared = if !full {
            c.fill(left + 144, 0, screen_width - (left + 144), 25, BAR_BG)
        } else {
            c
        };
        let clock_x = screen_width - font.text_width(st.clock_text@) - 10;
        cleared.text(font, clock_x, text_y, st.clock_text@, WIN_TITLE_TEXT)
    } else {
        c
    };
    if full { lines(d, 0, 25, screen_width, WIN_BORDER, 3) } else { d }
}

/// The bar is wide enough for its tabs, its clock and its name in this font.
pub open spec fn bar_fits<F: Font>(st: TopBarState, font: &F, screen_width: int) -> bool {
    &&& 144 <= screen_width
    &&& 10 + font.text_width(st.name()) <= u16::MAX
    &&& font.text_width(st.clock_text@) + 10 <= screen_width
    &&& forall|n: int| 1 <= n <= 6 ==> font.text_width(#[trigger] digit_text(n)) <= 24
}

/// Whether two places are the same.
pub fn same_target(a: &Option<HitTarget>, b: &Option<HitTarget>) -> (r: bool)
    ensures
        r == (*a == *b),
{
    match (a, b) {
        (Some(x), Some(y)) => *x == *y,
        (None, None) => true,
        _ => false,
    }
}

fn same_clock(a: &[u8; 5], b: &[u8; 5]) -> (r: bool)
    ensures
        r == (a@ == b@),
{
    let mut i: usize = 0;
    while i < 5
        invariant
            i <= 5,
            forall|k: int| 0 <= k < i ==> a@[k] == b@[k],
        decreases 5 - i,
    {
        if a[i] != b[i] {
            assert(a@[i as int] != b@[i as int]);
            return false;
        }
        i += 1;
    }
    assert(a@ =~= b@);
    true
}

/// Draw what changed of the top bar, and register its hit zones.
pub fn draw<F: Font>(
    surface: &mut UiSurface,
    hit_map: &mut HitMap,
    state: &mut TopBarState,
    font: &F,
    screen_width: u16,
)
    requires
        old(surface)@.wf(),
        old(surface).fb.width >= screen_width,
        old(state).wf(),
        bar_fits(*old(state), font, screen_width as int),
    ensures
        final(surface)@ == (if old(state).stale() {
            bar_drawn(old(surface)@, *old(state), font, screen_width as int)
        } else {
            old(surface)@
        }),
        final(surface)@.wf(),
        final(surface)@.same_shape(old(surface)@),
        final(hit_map)@ == old(hit_map)@ + tab_zones(screen_width as int),
        final(state)@ == old(state)@.shown(),
        *final(state) == (TopBarState {
            prev_active_desktop: final(state).prev_active_desktop,
            prev_hover: final(state).prev_hover,
            prev_clock: final(state).prev_clock,
            prev_name_len: final(state).prev_name_len,
            needs_full_draw: final(state).needs_full_draw,
            ..*old(state)
        }),
{
    let full: bool = state.needs_full_draw;
    let desktop_changed: bool = state.active_desktop != state.prev_active_desktop;
    let hover_changed: bool = !same_target(&state.hover, &state.prev_hover);
    let clock_changed: bool = !same_clock(&state.clock_text, &state.prev_clock);
    let name_changed: bool = state.active_name_len != state.prev_name_len;
    let ghost st = *state;

    if !full && !desktop_changed && !hover_changed && !clock_changed && !name_changed {
        register_hit_zones(hit_map, screen_width);
        return;
    }

    let font_height: u16 = font.get_height() as u16;
    let text_y: u16 = BAR_HEIGHT.saturating_sub(font_height) / 2;
    let buttons_x: u16 = (screen_width - BUTTONS_TOTAL_WIDTH) / 2;

    if full {
        surface.fill_rect(0, 0, screen_width, BAR_HEIGHT, BAR_BG);
    }

    if full || name_changed {
        if !full {
            surface.fill_rect(0, 0, buttons_x, BAR_HEIGHT, BAR_BG);
        }
        if state.active_name_len > 0 {
            let name: &[u8] = vstd::slice::slice_subrange(
                state.active_window_name.as_slice(), 0, state.active_name_len as usize,
            );
            surface.draw_text(font, 10, text_y, name, WIN_TITLE_TEXT);
        }
        state.prev_name_len = state.active_name_len;
    }

    if full || desktop_changed || hover_changed {
        draw_desktop_buttons(surface, font, state, buttons_x, text_y);
        state.prev_active_desktop = state.active_desktop;
        state.prev_hover = state.hover;
    }

    if full || clock_changed {
        let clock_width: u16 = font.compute_width(state.clock_text.as_slice());
        let clock_x: u16 = screen_width - clock_width - 10;
        let right_start: u16 = buttons_x + BUTTONS_TOTAL_WIDTH;
        if !full {
            surface.fill_rect(right_start, 0, screen_width - right_start, BAR_HEIGHT, BAR_BG);
        }
        surface.draw_text(font, clock_x, text_y, state.clock_text.as_slice(), WIN_TITLE_TEXT);
        state.prev_clock = state.clock_text;
    }

    if full {
        draw_lines(surface, 0, BAR_HEIGHT, screen_width, WIN_BORDER, BORDER_HEIGHT);
    }

    state.needs_full_draw = false;
    register_hit_zones(hit_map, screen_width);
}

/// What the bar should show, next to what it shows.
#[verifier::ext_equal]
pub struct Shown {
    pub name: Seq<u8>,
    pub occupied: u8,
    pub desktop: (u8, u8),
    pub hover: (Option<HitTarget>, Option<HitTarget>),
    pub clock: (Seq<u8>, Seq<u8>),
    pub name_len: (u8, u8),
    pub full: bool,
}

impl Shown {
    /// Everything is on screen.
    pub open spec fn shown(&self) -> Shown {
        Shown {
            name: self.name,
            occupied: self.occupied,
            desktop: (self.desktop.0, self.desktop.0),
            hover: (self.hover.0, self.hover.0),
            clock: (self.clock.0, self.clock.0),
            name_len: (self.name_len.0, self.name_len.0),
            full: false,
        }
    }
}

/// The bar before anything was drawn: the first desktop, without a name, at midnight.
pub open spec fn initial_bar() -> Shown {
    Shown {
        name: Seq::new(40, |i: int| 32u8),
        occupied: 1,
        desktop: (1, 0),
        hover: (None, None),
        clock: (seq![48u8, 48u8, 58u8, 48u8, 48u8], seq![0u8, 0u8, 0u8, 0u8, 0u8]),
        name_len: (0, 0),
        full: true,
    }
}

impl View for TopBarState {
    type V = Shown;

    open spec fn view(&self) -> Shown {
        Shown {
            name: self.active_window_name@,
            occupied: self.occupied_desktops,
            desktop: (self.active_desktop, self.prev_active_desktop),
            hover: (self.hover, self.prev_hover),
            clock: (self.clock_text@, self.prev_clock@),
            name_len: (self.active_name_len, self.prev_name_len),
            full: self.needs_full_draw,
        }
    }
}

/// Once drawn, the bar has nothing left to draw until its state changes.
pub proof fn drawn_bar_is_not_stale(before: TopBarState, after: TopBarState)
    requires
        after@ == before@.shown(),
    ensures
        !after.stale(),
{
    assert(after@.desktop.0 == after@.desktop.1);
    assert(after@.hover.0 == after@.hover.1);
    assert(after@.clock.0 == after@.clock.1);
    assert(after@.name_len.0 == after@.name_len.1);
    assert(!after@.full);
}

fn draw_lines(surface: &mut UiSurface, x: u16, y: u16, w: u16, color: u32, n: u16)
    requires
        old(surface)@.wf(),
        x + w <= u16::MAX,
        x <= old(surface).fb.width,
        y + n <= u16::MAX,
    ensures
        final(surface)@ == lines(old(surface)@, x as int, y as int, w as int, color, n as nat),
        final(surface)@.same_shape(old(surface)@),
        final(surface)@.wf(),
{
    let mut j: u16 = 0;
    while j < n
        invariant
            j <= n,
            surface@.wf(),
            x + w <= u16::MAX,
            x <= surface.fb.width,
            y + n <= u16::MAX,
            surface@ == lines(old(surface)@, x as int, y as int, w as int, color, j as nat),
            surface@.same_shape(old(surface)@),
        decreases n - j,
    {
        surface.draw_hline(x, y + j, w, color);
        j += 1;
    }
}

fn draw_desktop_buttons<F: Font>(
    surface: &mut UiSurface,
    font: &F,
    state: &TopBarState,
    buttons_x: u16,
    text_y: u16,
)
    requires
        old(surface)@.wf(),
        buttons_x + 144 <= old(surface).fb.width,
        text_y <= 25,
        forall|n: int| 1 <= n <= 6 ==> font.text_width(#[trigger] digit_text(n)) <= 24,
    ensures
        final(surface)@ == tabs_drawn(
            old(surface)@, font, state.tabs(), buttons_x as int, text_y as int, 6,
        ),
        final(surface)@.wf(),
        final(surface)@.same_shape(old(surface)@),
{
    surface.fill_rect(buttons_x, 0, BUTTONS_TOTAL_WIDTH, BAR_HEIGHT, BAR_BG);
    let mut i: u8 = 0;
    while i < DESKTOP_COUNT
        invariant
            i <= 6,
            surface@.wf(),
            surface@.same_shape(old(surface)@),
            buttons_x + 144 <= surface.fb.width,
            text_y <= 25,
            forall|n: int| 1 <= n <= 6 ==> font.text_width(#[trigger] digit_text(n)) <= 24,
            surface@ == tabs_drawn(
                old(surface)@, font, state.tabs(), buttons_x as int, text_y as int, i as nat,
            ),
        decreases 6 - i,
    {
        let desktop_num: u8 = i + 1;
        let btn_x: u16 = buttons_x + i as u16 * BUTTON_WIDTH;
        let is_active: bool = desktop_num == state.active_desktop;
        let is_hovered: bool = same_target(&state.hover, &Some(HitTarget::DesktopTab(desktop_num)));
        let is_occupied: bool = state.occupied_desktops & (1u8 << i) != 0;

        let digit: [u8; 1] = [48 + desktop_num];
        assert(digit@ =~= digit_text(desktop_num as int));
        let digit_width: u16 = font.compute_width(digit.as_slice());
        let digit_x: u16 = btn_x + (BUTTON_WIDTH - digit_width) / 2;
        let text_color: u32 = if is_active { ACCENT_ACTIVE } else { BAR_TEXT };
        surface.draw_text(font, digit_x, text_y, digit.as_slice(), text_color);

        if is_active {
            draw_lines(surface, btn_x + 2, BAR_HEIGHT - 3, BUTTON_WIDTH - 4, ACCENT_ACTIVE, 3);
        } else if is_hovered {
            draw_lines(surface, btn_x + 2, BAR_HEIGHT - 3, BUTTON_WIDTH - 4, ACCENT, 3);
        }

        if is_occupied && !is_active {
            let dot_x: u16 = btn_x + (BUTTON_WIDTH - 4) / 2;
            surface.draw_hline(dot_x, BAR_HEIGHT - 1, 4, BAR_TEXT);
        }
        i += 1;
    }
}

fn register_hit_zones(hit_map: &mut HitMap, screen_width: u16)
    requires
        144 <= screen_width,
    ensures
        final(hit_map)@ == old(hit_map)@ + tab_zones(screen_width as int),
{
    let buttons_x: u16 = (screen_width - BUTTONS_TOTAL_WIDTH) / 2;
    let mut i: u8 = 0;
    while i < DESKTOP_COUNT
        invariant
            i <= 6,
            buttons_x == buttons_left(screen_width as int),
            buttons_x + 144 <= screen_width,
            hit_map@ =~= old(hit_map)@ + tab_zones(screen_width as int).subrange(0, i as int),
        decreases 6 - i,
    {
        let btn_x: u16 = buttons_x + i as u16 * BUTTON_WIDTH;
        hit_map.add(
            Region { x: btn_x, y: 0, width: BUTTON_WIDTH, height: BAR_HEIGHT },
            HitTarget::DesktopTab(i + 1),
        );
        i += 1;
    }
    assert(tab_zones(screen_width as int).subrange(0, 6) =~= tab_zones(screen_width as int));
}

/// A point on the tab of desktop `n` hits that tab.
pub proof fn tab_under_point(screen_width: int, n: int, x: int, y: int)
    requires
        144 <= screen_width <= u16::MAX,
        1 <= n <= 6,
        buttons_left(screen_width) + (n - 1) * 24 <= x < buttons_left(screen_width) + n * 24,
        0 <= y < 25,
    ensures
        crate::console::hit::hit_at(tab_zones(screen_width), x, y)
            == Some(HitTarget::DesktopTab(n as u8)),
{
    let zones = tab_zones(screen_width);
    lemma_tabs_above_miss(screen_width, n, x, y, 6);
    let upto = zones.subrange(0, n);
    assert(upto.last() == zones[n - 1]);
}

proof fn lemma_tabs_above_miss(screen_width: int, n: int, x: int, y: int, m: int)
    requires
        144 <= screen_width <= u16::MAX,
        1 <= n <= m <= 6,
        buttons_left(screen_width) + (n - 1) * 24 <= x < buttons_left(screen_width) + n * 24,
        0 <= y < 25,
    ensures
        crate::console::hit::hit_at(tab_zones(screen_width), x, y)
            == crate::console::hit::hit_at(tab_zones(screen_width).subrange(0, n), x, y)
            || m < 6,
        crate::console::hit::hit_at(tab_zones(screen_width).subrange(0, m), x, y)
            == crate::console::hit::hit_at(tab_zones(screen_width).subrange(0, n), x, y),
    decreases m,
{
    let zones = tab_zones(screen_width);
    assert(zones.subrange(0, 6) =~= zones);
    if m > n {
        let s = zones.subrange(0, m);
        assert(s.last() == zones[m - 1]);
        assert(s.drop_last() =~= zones.subrange(0, m - 1));
        lemma_tabs_above_miss(screen_width, n, x, y, m - 1);
    }
}

proof fn lemma_fill_within(ui: Ui, x: int, y: int, w: int, h: int, color: u32, sw: int, sh: int)
    requires
        regions_within(ui.dirty, sw, sh),
        ui.frame.width <= sw,
        ui.frame.height <= sh,
        0 <= x <= ui.frame.width,
        0 <= y <= ui.frame.height,
        0 <= w,
        0 <= h,
    ensures
        regions_within(ui.fill(x, y, w, h, color).dirty, sw, sh),
        ui.fill(x, y, w, h, color).frame.width == ui.frame.width,
        ui.fill(x, y, w, h, color).frame.height == ui.frame.height,
{
}

proof fn lemma_lines_within(ui: Ui, x: int, y: int, w: int, color: u32, n: nat, sw: int, sh: int)
    requires
        regions_within(ui.dirty, sw, sh),
        ui.frame.width <= sw,
        ui.frame.height <= sh,
        0 <= x <= ui.frame.width,
        0 <= y,
        0 <= w,
    ensures
        regions_within(lines(ui, x, y, w, color, n).dirty, sw, sh),
        lines(ui, x, y, w, color, n).frame.width == ui.frame.width,
        lines(ui, x, y, w, color, n).frame.height == ui.frame.height,
    decreases n,
{
    if n > 0 {
        lemma_lines_within(ui, x, y, w, color, (n - 1) as nat, sw, sh);
    }
}

proof fn lemma_text_within<F: Font>(
    ui: Ui, font: &F, x: int, y: int, text: Seq<u8>, fg: u32, sw: int, sh: int,
)
    requires
        regions_within(ui.dirty, sw, sh),
        0 <= x,
        0 <= y,
        x + font.text_width(text) <= sw <= u16::MAX,
        y + font.height() <= sh <= u16::MAX,
    ensures
        regions_within(ui.text(font, x, y, text, fg).dirty, sw, sh),
        ui.text(font, x, y, text, fg).frame.width == ui.frame.width,
        ui.text(font, x, y, text, fg).frame.height == ui.frame.height,
{
}

proof fn lemma_tabs_within<F: Font>(
    ui: Ui, font: &F, tabs: Tabs, x: int, text_y: int, n: nat, sw: int, sh: int,
)
    requires
        regions_within(ui.dirty, sw, sh),
        ui.frame.width <= sw <= u16::MAX,
        ui.frame.height <= sh <= u16::MAX,
        0 <= x,
        x + 144 <= ui.frame.width,
        n <= 6,
        0 <= text_y,
        text_y + font.height() <= sh,
        forall|k: int| 1 <= k <= 6 ==> font.text_width(#[trigger] digit_text(k)) <= 24,
    ensures
        regions_within(tabs_drawn(ui, font, tabs, x, text_y, n).dirty, sw, sh),
        tabs_drawn(ui, font, tabs, x, text_y, n).frame.width == ui.frame.width,
        tabs_drawn(ui, font, tabs, x, text_y, n).frame.height == ui.frame.height,
    decreases n,
{
    if n == 0 {
        lemma_fill_within(ui, x, 0, 144, 25, BAR_BG, sw, sh);
    } else {
        lemma_tabs_within(ui, font, tabs, x, text_y, (n - 1) as nat, sw, sh);
        let p = tabs_drawn(ui, font, tabs, x, text_y, (n - 1) as nat);
        let bx = x + (n - 1) * 24;
        let k = n as int;
        let active = k == tabs.active;
        assert(font.text_width(digit_text(k)) <= 24);
        let digit_x = bx + (24 - font.text_width(digit_text(k))) / 2;
        let color = if active { ACCENT_ACTIVE } else { BAR_TEXT };
        lemma_text_within(p, font, digit_x, text_y, digit_text(k), color, sw, sh);
        let a = p.text(font, digit_x, text_y, digit_text(k), color);
        lemma_lines_within(a, bx + 2, 22, 20, ACCENT_ACTIVE, 3, sw, sh);
        lemma_lines_within(a, bx + 2, 22, 20, ACCENT, 3, sw, sh);
        let b = if active {
            lines(a, bx + 2, 22, 20, ACCENT_ACTIVE, 3)
        } else if tabs.hover == Some(HitTarget::DesktopTab(n as u8)) {
            lines(a, bx + 2, 22, 20, ACCENT, 3)
        } else {
            a
        };
        lemma_lines_within(b, bx + 10, 24, 4, BAR_TEXT, 1, sw, sh);
        assert(lines(b, bx + 10, 24, 4, BAR_TEXT, 0) == b);
        assert(lines(b, bx + 10, 24, 4, BAR_TEXT, 1) == b.hline(bx + 10, 24, 4, BAR_TEXT));
    }
}

/// The name and the text height leave the bar on screen.
pub open spec fn bar_on_screen<F: Font>(
    st: TopBarState, font: &F, screen_width: int, screen_height: int,
) -> bool {
    10 + font.text_width(st.name()) <= screen_width
        && text_top(font.height() as int) + font.height() <= screen_height
}

/// Drawing the bar marks regions of the screen only.
pub proof fn lemma_bar_within<F: Font>(ui: Ui, st: TopBarState, font: &F, sw: int, sh: int)
    requires
        regions_within(ui.dirty, sw, sh),
        ui.frame.width == sw,
        ui.frame.height <= sh <= u16::MAX,
        25 <= ui.frame.height,
        bar_fits(st, font, sw),
        bar_on_screen(st, font, sw, sh),
    ensures
        regions_within(bar_drawn(ui, st, font, sw).dirty, sw, sh),
{
    let full = st.needs_full_draw;
    let ty = text_top(font.height() as int);
    let left = buttons_left(sw);
    lemma_fill_within(ui, 0, 0, sw, 25, BAR_BG, sw, sh);
    let a = if full { ui.fill(0, 0, sw, 25, BAR_BG) } else { ui };
    lemma_fill_within(a, 0, 0, left, 25, BAR_BG, sw, sh);
    let a2 = if !full { a.fill(0, 0, left, 25, BAR_BG) } else { a };
    lemma_text_within(a2, font, 10, ty, st.name(), WIN_TITLE_TEXT, sw, sh);
    let b = if full || st.name_changed() {
        if st.active_name_len > 0 {
            a2.text(font, 10, ty, st.name(), WIN_TITLE_TEXT)
        } else {
            a2
        }
    } else {
        a
    };
    lemma_tabs_within(b, font, st.tabs(), left, ty, 6, sw, sh);
    let c = if full || st.desktop_changed() || st.hover_changed() {
        tabs_drawn(b, font, st.tabs(), left, ty, 6)
    } else {
        b
    };
    lemma_fill_within(c, left + 144, 0, sw - (left + 144), 25, BAR_BG, sw, sh);
    let c2 = if !full { c.fill(left + 144, 0, sw - (left + 144), 25, BAR_BG) } else { c };
    let cx = sw - font.text_width(st.clock_text@) - 10;
    lemma_text_within(c2, font, cx, ty, st.clock_text@, WIN_TITLE_TEXT, sw, sh);
    let d = if full || st.clock_changed() {
        c2.text(font, cx, ty, st.clock_text@, WIN_TITLE_TEXT)
    } else {
        c
    };
    lemma_lines_within(d, 0, 25, sw, WIN_BORDER, 3, sw, sh);
}

} // verus!
