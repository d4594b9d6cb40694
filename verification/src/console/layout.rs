//! What holds of the places of windows, of what lies in them, and of what a click hits.
use vstd::prelude::*;

use crate::bits::lesser;
use crate::console::compositor::{Compositor, DragRender, Window, WindowMode};
use crate::console::decor::{Decor, DecorMetrics, FlatDecor};
use crate::console::font::Font;
use crate::console::graphics::{color_byte, rows_copied, Frame, Region};
use crate::console::hit::{hit_at, HitTarget, HitZone, ScrollDirection};
use crate::console::picture::{copied_rows_are_the_same, on, pixel, pixels_hold_their_colour, whole};
use crate::console::render::{blitted, pointer_row, pointer_rows, restored, rows_above};
use crate::console::scene::{arrow_zones, draw_order, tile, tiled_list, window_zones, Look};
use crate::console::screen::Console;
use crate::console::topbar::{bar_drawn, TopBarState};
use crate::console::ui::Ui;
use crate::console::window::{
    char_width, first_col, first_row, scrollbars_of, text_layout, window_drawn, ScrollbarInfo,
    WindowStyle,
};

verus! {

/// A window that has room for all rows and columns has no bars for scrolling. One that has not shows
/// as many as fit, and bars beside them.
pub proof fn texts_fit_or_scroll(w: int, h: int, cw: int, ch: int)
    requires
        14 <= w <= u16::MAX,
        14 <= h <= u16::MAX,
        0 < cw,
        0 < ch,
    ensures
        ({
            let l = text_layout(w, h, cw, ch);
            &&& 80 * cw <= w && 25 * ch <= h ==> !l.need_v && !l.need_h && l.rows == 25 && l.cols == 80
            &&& 25 * ch > h ==> l.need_v
            &&& 80 * cw > w ==> l.need_h
            &&& l.need_v ==> l.area_w + 14 == w
            &&& !l.need_v ==> l.area_w == w
            &&& l.need_h ==> l.area_h + 14 == h
            &&& !l.need_h ==> l.area_h == h
            &&& l.rows * ch <= l.area_h && (l.rows == 25 || (l.rows + 1) * ch > l.area_h)
            &&& l.cols * cw <= l.area_w && (l.cols == 80 || (l.cols + 1) * cw > l.area_w)
            &&& l.rows <= 25 && l.cols <= 80
        }),
{
    let l = text_layout(w, h, cw, ch);
    lemma_fitting(l.area_h as int, ch, 25);
    lemma_fitting(l.area_w as int, cw, 80);
}

proof fn lemma_fitting(area: int, unit: int, limit: int)
    requires
        0 <= area,
        0 < unit,
        0 <= limit,
    ensures
        ({
            let n = crate::console::window::fitting(area, unit, limit);
            &&& 0 <= n <= limit
            &&& n * unit <= area
            &&& n == limit || (n + 1) * unit > area
            &&& limit * unit <= area ==> n == limit
        }),
{
    let q = area / unit;
    vstd::arithmetic::div_mod::lemma_fundamental_div_mod(area, unit);
    assert(unit * q <= area < unit * q + unit);
    assert(q >= 0) by (nonlinear_arith)
        requires
            area < unit * q + unit,
            0 <= area,
            0 < unit,
    ;
    assert(unit * q == q * unit) by (nonlinear_arith);
    assert((q + 1) * unit == q * unit + unit) by (nonlinear_arith);
    if q < limit {
        assert((q + 1) * unit <= limit * unit) by (nonlinear_arith)
            requires
                q + 1 <= limit,
                0 < unit,
        ;
    } else {
        assert(limit * unit <= q * unit) by (nonlinear_arith)
            requires
                limit <= q,
                0 < unit,
        ;
    }
}

/// A console that follows its output shows its last rows; one that was scrolled shows the rows from
/// where it was scrolled to. Columns are shown from the left.
pub proof fn consoles_show_where_they_were_scrolled(row: usize, col: usize, limit: int)
    requires
        0 <= limit,
    ensures
        first_row(None, limit) == limit,
        row <= limit ==> first_row(Some(row), limit) == row,
        row > limit ==> first_row(Some(row), limit) == limit,
        first_col(None, limit) == 0,
        col <= limit ==> first_col(Some(col), limit) == col,
        col > limit ==> first_col(Some(col), limit) == limit,
{
}

/// A text window is drawn when something changed. Then the rows and columns that do not fit are
/// those by which it can be scrolled. Else its pixels stay.
pub proof fn windows_are_drawn_when_they_change<F: Font, D: Decor<F>>(
    frame: Frame, con: Console, font: &F, decor: &D, s: WindowStyle, bpp: int,
)
    requires
        con.terminal.graphics_buffer is None,
    ensures
        ({
            let d = window_drawn(frame, con, font, decor, s, bpp);
            let l = text_layout(
                s.avail_w as int, s.avail_h as int, char_width(font), font.height() as int,
            );
            &&& !s.force && !con.dirty ==> d.frame == frame && d.dirty is None
            &&& s.force || con.dirty ==> {
                &&& d.scroll_limits == Some(((25 - l.rows) as usize, (80 - l.cols) as usize))
                &&& d.dirty matches Some(r) && r.x == 0 && r.y == 0 && r.width == (s.avail_w
                    + decor.spec_metrics().extra_w) as u16 && r.height == (s.avail_h
                    + decor.spec_metrics().extra_h) as u16
                &&& d.scrollbars is Some == (l.need_v || l.need_h)
            }
        }),
{
    reveal(window_drawn);
}

/// Bars lie beside the text: the vertical one to the right of it, as high as it is, and the
/// horizontal one below it, as wide as it is.
pub proof fn bars_lie_beside_the_text(m: DecorMetrics, w: int, h: int, cw: int, ch: int)
    requires
        14 <= w,
        14 <= h,
        m.content_x + w <= u16::MAX,
        m.content_y + h <= u16::MAX,
        0 < cw,
        0 < ch,
    ensures
        ({
            let l = text_layout(w, h, cw, ch);
            let bars = scrollbars_of(m, l);
            &&& bars is None == (!l.need_v && !l.need_h)
            &&& bars matches Some(b) ==> {
                &&& b.has_vertical == l.need_v && b.has_horizontal == l.need_h
                &&& l.need_v ==> b.v_x + 14 == m.content_x + w && b.v_y == m.content_y && b.v_height
                    == l.area_h
                &&& l.need_h ==> b.h_y + 14 == m.content_y + h && b.h_x == m.content_x && b.h_width
                    == l.area_w
            }
        }),
{
}

/// One tiled window has all of the screen below the bar. Two have the upper and the lower half. Of
/// three, the first has the upper half and the others share the lower one. Of four, each has a
/// quarter, row by row.
pub proof fn tiles_share_the_screen(look: Look, m: DecorMetrics)
    requires
        28 <= look.screen_h,
        0 <= look.screen_w,
        look.screen_w % 2 == 0,
        look.screen_h % 2 == 0,
    ensures
        ({
            let w = look.screen_w;
            let h = look.screen_h - 28;
            let size = |t: (int, int, int, int)| (t.0, t.1 - 28, t.2 + m.extra_w, t.3 + m.extra_h);
            &&& size(tile(look, m, 1, 0)) == (0int, 0int, w, h)
            &&& size(tile(look, m, 2, 0)) == (0int, 0int, w, h / 2)
            &&& size(tile(look, m, 2, 1)) == (0int, h / 2, w, h / 2)
            &&& size(tile(look, m, 3, 0)) == (0int, 0int, w, h / 2)
            &&& size(tile(look, m, 3, 1)) == (0int, h / 2, w / 2, h / 2)
            &&& size(tile(look, m, 3, 2)) == (w / 2, h / 2, w / 2, h / 2)
            &&& size(tile(look, m, 4, 0)) == (0int, 0int, w / 2, h / 2)
            &&& size(tile(look, m, 4, 1)) == (w / 2, 0int, w / 2, h / 2)
            &&& size(tile(look, m, 4, 2)) == (0int, h / 2, w / 2, h / 2)
            &&& size(tile(look, m, 4, 3)) == (w / 2, h / 2, w / 2, h / 2)
        }),
{
}

proof fn lemma_tiled(windows: Seq<Window>, n: int, i: int, j: int)
    requires
        0 <= n <= windows.len() <= usize::MAX,
    ensures
        0 <= i < tiled_list(windows, n).len() ==> tiled_list(windows, n)[i] < n && windows[tiled_list(
            windows, n,
        )[i] as int].mode == WindowMode::Tiled,
        0 <= i < j < tiled_list(windows, n).len() ==> tiled_list(windows, n)[i] < tiled_list(windows, n)[j],
        0 <= i < n && windows[i].mode == WindowMode::Tiled ==> tiled_list(windows, n).contains(i as usize),
    decreases n,
{
    if n > 0 {
        lemma_tiled(windows, n - 1, i, j);
        let less = tiled_list(windows, n - 1);
        let all = tiled_list(windows, n);
        if windows[n - 1].mode == WindowMode::Tiled {
            if 0 <= i < less.len() {
                assert(all[i] == less[i]);
            }
            if i < j && j == less.len() {
                assert(all[j] == n - 1);
            }
            if i == n - 1 {
                assert(all[less.len() as int] == i as usize);
            } else if 0 <= i < n - 1 && windows[i].mode == WindowMode::Tiled {
                let k = choose|k: int| 0 <= k < less.len() && less[k] == i as usize;
                assert(all[k] == i as usize);
            }
        }
    }
}

/// Windows are drawn from the back: first those that are tiled, in their order, then those that float,
/// the topmost last. No tiled window is left out.
pub proof fn windows_are_drawn_from_the_back(windows: Seq<Window>, floats: Seq<usize>, i: int, j: int)
    requires
        windows.len() <= usize::MAX,
        0 <= i < windows.len(),
    ensures
        ({
            let order = draw_order(windows, floats);
            let tiled = order.len() - floats.len();
            &&& tiled >= 0
            &&& order.subrange(tiled, order.len() as int) == floats
            &&& windows[i].mode == WindowMode::Tiled ==> order.subrange(0, tiled).contains(i as usize)
            &&& 0 <= j < tiled ==> order[j] < windows.len() && windows[order[j] as int].mode
                == WindowMode::Tiled
            &&& 0 <= i < j < tiled ==> order[i] < order[j]
        }),
{
    let list = tiled_list(windows, windows.len() as int);
    let order = draw_order(windows, floats);
    lemma_tiled(windows, windows.len() as int, i, j);
    lemma_tiled(windows, windows.len() as int, j, j);
    assert(order.subrange(list.len() as int, order.len() as int) =~= floats);
    assert(order.subrange(0, list.len() as int) =~= list);
}

/// The buttons of a bar lie at its right end, the first rightmost, side by side.
pub proof fn buttons_lie_at_the_right_end<F: Font>(
    decor: FlatDecor, font: &F, x: int, y: int, w: int, b: int,
)
    requires
        0 <= x,
        0 <= y,
        0 <= b < decor.button_count,
        (b + 1) * decor.bar_height <= w + 2,
        x + w + 2 <= u16::MAX,
        y + decor.bar_height <= u16::MAX,
    ensures
        ({
            let r = Decor::<F>::button_rect(&decor, x, y, w, b);
            &&& r.x + (b + 1) * decor.bar_height == x + w + 2
            &&& r.y == y && r.width == decor.bar_height && r.height == decor.bar_height
        }),
{
    assert((b + 1) * decor.bar_height >= decor.bar_height) by (nonlinear_arith)
        requires
            b >= 0,
    ;
}

proof fn lemma_hit_front(front: Seq<HitZone>, zones: Seq<HitZone>, x: int, y: int)
    ensures
        hit_at(front + zones, x, y) == (match hit_at(zones, x, y) {
            Some(t) => Some(t),
            None => hit_at(front, x, y),
        }),
    decreases zones.len(),
{
    if zones.len() == 0 {
        assert(front + zones =~= front);
    } else {
        assert((front + zones).drop_last() =~= front + zones.drop_last());
        assert((front + zones).last() == zones.last());
        lemma_hit_front(front, zones.drop_last(), x, y);
    }
}

/// Whether a point lies in a part of the screen.
pub open spec fn in_part(x: int, y: int, left: int, top: int, w: int, h: int) -> bool {
    left <= x < left + w && top <= y < top + h
}

/// A click on a window hits its arrows for scrolling, else its buttons, else its bar, else what lies in
/// it. Where it hits none of them, it hits what lies behind.
pub proof fn clicks_hit_the_window(
    behind: Seq<HitZone>, x: int, y: int, w: int, h: int, idx: int, sb: Option<ScrollbarInfo>,
    decor: FlatDecor, px: int, py: int,
)
    requires
        0 <= x,
        0 <= y,
        0 <= w,
        0 <= h,
        0 <= idx < 256,
        x + w + 2 <= u16::MAX,
        y + h + decor.bar_height + 2 <= u16::MAX,
        decor.button_count == 0,
        hit_at(arrow_zones(x, y, idx, sb), px, py) is None,
    ensures
        ({
            let bar = decor.bar_height as int;
            let zones = behind + window_zones::<
                crate::console::font::BitmapFont,
                FlatDecor,
            >(&decor, x, y, w, h, idx, sb);
            &&& in_part(px, py, x, y, w + 2, bar) ==> hit_at(zones, px, py) == Some(
                HitTarget::WindowTitleBar(idx as u8),
            )
            &&& in_part(px, py, x, y + bar + 1, w + 2, h + 1) ==> hit_at(zones, px, py) == Some(
                HitTarget::WindowContent(idx as u8),
            )
            &&& !in_part(px, py, x, y, w + 2, h + bar + 2) ==> hit_at(zones, px, py) == hit_at(
                behind, px, py,
            )
        }),
{
    let zones = window_zones::<crate::console::font::BitmapFont, FlatDecor>(
        &decor, x, y, w, h, idx, sb,
    );
    let arrows = arrow_zones(x, y, idx, sb);
    let content = zones[0];
    let title = zones[1];
    let two = seq![content, title];
    assert(zones =~= two + arrows);
    lemma_hit_front(behind, zones, px, py);
    lemma_hit_front(two, arrows, px, py);
    assert(two.drop_last() =~= seq![content]);
    assert(seq![content].drop_last() =~= Seq::empty());
    reveal_with_fuel(hit_at, 3);
}

/// The arrows lie at the ends of their bars and scroll to that side.
pub proof fn arrows_scroll_to_their_side(x: int, y: int, idx: int, b: ScrollbarInfo, px: int, py: int)
    requires
        0 <= x,
        0 <= y,
        0 <= idx < 256,
        x + b.v_x + 14 <= u16::MAX,
        y + b.v_y + b.v_height <= u16::MAX,
        x + b.h_x + b.h_width <= u16::MAX,
        y + b.h_y + 14 <= u16::MAX,
        28 <= b.v_height,
        28 <= b.h_width,
    ensures
        b.has_vertical && !b.has_horizontal ==> {
            let zones = arrow_zones(x, y, idx, Some(b));
            let (left, top) = (x + b.v_x, y + b.v_y);
            &&& in_part(px, py, left, top, 14, 14) ==> hit_at(zones, px, py) == Some(
                HitTarget::ScrollArrow(idx as u8, ScrollDirection::Up),
            )
            &&& in_part(px, py, left, top + b.v_height - 14, 14, 14) ==> hit_at(zones, px, py) == Some(
                HitTarget::ScrollArrow(idx as u8, ScrollDirection::Down),
            )
        },
        b.has_horizontal && !b.has_vertical ==> {
            let zones = arrow_zones(x, y, idx, Some(b));
            let (left, top) = (x + b.h_x, y + b.h_y);
            &&& in_part(px, py, left, top, 14, 14) ==> hit_at(zones, px, py) == Some(
                HitTarget::ScrollArrow(idx as u8, ScrollDirection::Left),
            )
            &&& in_part(px, py, left + b.h_width - 14, top, 14, 14) ==> hit_at(zones, px, py) == Some(
                HitTarget::ScrollArrow(idx as u8, ScrollDirection::Right),
            )
        },
{
    let zones = arrow_zones(x, y, idx, Some(b));
    reveal_with_fuel(hit_at, 3);
    if b.has_vertical != b.has_horizontal {
        assert(zones.len() == 2);
        assert(zones.drop_last() =~= seq![zones[0]]);
        assert(seq![zones[0]].drop_last() =~= Seq::empty());
    }
}

/// A bar that shows what it should stays as it is.
pub proof fn a_bar_up_to_date_stays<F: Font>(ui: Ui, st: TopBarState, font: &F, screen_width: int)
    requires
        !st.stale(),
    ensures
        bar_drawn(ui, st, font, screen_width) == ui,
{
}

#[verifier::rlimit(50)]
proof fn lemma_restored(
    f: Frame, from: Seq<u8>, x: int, y: int, w: int, rows: int, bpp: int, px: int, py: int, b: int,
)
    requires
        whole(f, bpp),
        f.origin == 0,
        from.len() >= f.pixels.len(),
        0 <= x,
        0 <= y,
        0 <= w,
        0 <= rows,
        x + w <= f.width,
        y + rows <= f.height,
        on(f, px, py, b, bpp),
    ensures
        restored(f, from, x, y, w, rows, bpp).same_shape(f),
        pixel(restored(f, from, x, y, w, rows, bpp), px, py, b, bpp) == (if in_part(
            px, py, x, y, w, rows,
        ) {
            from[f.at(px, py, bpp) + b]
        } else {
            pixel(f, px, py, b, bpp)
        }),
{
    let s = f.stride as int;
    let at = f.at(x, y, bpp);
    let len = w * bpp;
    assert(0 <= y * s && 0 <= x * bpp && 0 <= len) by (nonlinear_arith)
        requires
            0 <= y,
            0 <= s,
            0 <= x,
            0 <= bpp,
            len == w * bpp,
            0 <= w,
    ;
    assert(x * bpp + len <= f.width * bpp) by (nonlinear_arith)
        requires
            x + w <= f.width,
            0 <= bpp,
            len == w * bpp,
    ;
    assert(px * bpp + bpp <= f.width * bpp) by (nonlinear_arith)
        requires
            px + 1 <= f.width,
            0 <= bpp,
    ;
    assert(0 <= px * bpp) by (nonlinear_arith)
        requires
            0 <= px,
            0 <= bpp,
    ;
    if rows > 0 {
        assert((y + rows - 1) * s == y * s + (rows - 1) * s) by (nonlinear_arith);
        assert((y + rows - 1) * s <= (f.height - 1) * s) by (nonlinear_arith)
            requires
                y + rows <= f.height,
                0 <= s,
        ;
        if f.width == 0 {
            assert(len == 0) by (nonlinear_arith)
                requires
                    len == w * bpp,
                    w == 0,
            ;
        }
    }
    crate::console::graphics::lemma_rows_copied_len(
        f.pixels, at, s, from, at, s, len, rows as nat,
    );
    // The byte's place, counted in rows from where the copy begins.
    let d = px * bpp + b - x * bpp;
    if d >= 0 {
        let r = py - y;
        assert(f.at(px, py, bpp) + b == at + r * s + d) by (nonlinear_arith)
            requires
                f.at(px, py, bpp) == py * s + px * bpp,
                at == y * s + x * bpp,
                d == px * bpp + b - x * bpp,
                r == py - y,
        ;
        lemma_in_frame(f, px, py, b, bpp);
        copied_rows_are_the_same(f.pixels, at, s, from, at, s, len, rows as nat, r, d);
    } else {
        let r = py - y - 1;
        let i = d + s;
        assert(f.at(px, py, bpp) + b == at + r * s + i) by (nonlinear_arith)
            requires
                f.at(px, py, bpp) == py * s + px * bpp,
                at == y * s + x * bpp,
                i == px * bpp + b - x * bpp + s,
                r == py - y - 1,
        ;
        lemma_in_frame(f, px, py, b, bpp);
        copied_rows_are_the_same(f.pixels, at, s, from, at, s, len, rows as nat, r, i);
    }
    assert((d >= 0 && d < len) == (x <= px < x + w)) by (nonlinear_arith)
        requires
            d == px * bpp + b - x * bpp,
            len == w * bpp,
            0 <= b < bpp,
    ;
}

proof fn lemma_in_frame(f: Frame, px: int, py: int, b: int, bpp: int)
    requires
        whole(f, bpp),
        f.origin == 0,
        on(f, px, py, b, bpp),
    ensures
        0 <= f.at(px, py, bpp) + b < f.pixels.len(),
{
    let s = f.stride as int;
    assert(0 <= py * s) by (nonlinear_arith)
        requires
            0 <= py,
            0 <= s,
    ;
    assert(0 <= px * bpp) by (nonlinear_arith)
        requires
            0 <= px,
            0 <= bpp,
    ;
    assert(py * s <= (f.height - 1) * s) by (nonlinear_arith)
        requires
            py <= f.height - 1,
            0 <= s,
    ;
    assert(px * bpp + bpp <= f.width * bpp) by (nonlinear_arith)
        requires
            px + 1 <= f.width,
            0 <= bpp,
    ;
}

/// What is shown on the screen is what was drawn: after the changed parts were copied, each pixel in
/// one of them is that of the picture, and every other pixel stays.
#[verifier::rlimit(50)]
pub proof fn changed_parts_come_to_the_screen(
    screen: Frame, scratch: Frame, regions: Seq<Region>, bpp: int, n: nat, x: int, y: int, b: int,
)
    requires
        whole(screen, bpp),
        screen.origin == 0,
        scratch.same_shape(screen),
        n <= regions.len(),
        forall|i: int|
            0 <= i < regions.len() ==> (#[trigger] regions[i]).right() <= screen.width
                && regions[i].bottom() <= screen.height,
        on(screen, x, y, b, bpp),
    ensures
        blitted(screen, scratch, regions, bpp, n).same_shape(screen),
        pixel(blitted(screen, scratch, regions, bpp, n), x, y, b, bpp) == (if exists|i: int|
            0 <= i < n && (#[trigger] regions[i]).holds(x, y) {
            pixel(scratch, x, y, b, bpp)
        } else {
            pixel(screen, x, y, b, bpp)
        }),
    decreases n,
{
    if n > 0 {
        changed_parts_come_to_the_screen(
            screen, scratch, regions, bpp, (n - 1) as nat, x, y, b,
        );
        let prev = blitted(screen, scratch, regions, bpp, (n - 1) as nat);
        let r = regions[n - 1];
        lemma_restored(
            prev, scratch.pixels, r.x as int, r.y as int, r.width as int, r.height as int, bpp, x, y,
            b,
        );
        assert(scratch.at(x, y, bpp) == prev.at(x, y, bpp));
        if exists|i: int| 0 <= i < n && (#[trigger] regions[i]).holds(x, y) {
            let i = choose|i: int| 0 <= i < n && (#[trigger] regions[i]).holds(x, y);
            if i < n - 1 {
                assert(exists|k: int| 0 <= k < n - 1 && (#[trigger] regions[k]).holds(x, y));
            }
        } else {
            assert(!regions[n - 1].holds(x, y));
        }
        if r.holds(x, y) {
            assert(regions[n - 1].holds(x, y));
        }
    }
}

/// The pointer is white where its bits are set, the leftmost in the top bit, and shows what is behind
/// it elsewhere.
pub proof fn the_pointer_shows_its_bits(
    buf: Seq<u8>, at: int, bits: u16, bpp: int, n: nat, c: int, b: int,
)
    requires
        bpp == 1 || bpp == 3,
        0 <= at,
        at + n * bpp <= buf.len(),
        n <= 16,
        0 <= c < n,
        0 <= b < bpp,
    ensures
        pointer_row(buf, at, bits, bpp, n).len() == buf.len(),
        pointer_row(buf, at, bits, bpp, n)[at + c * bpp + b] == (if (bits >> ((15 - c) as u16)) & 1 == 1 {
            0xFFu8
        } else {
            buf[at + c * bpp + b]
        }),
    decreases n,
{
    let m = n - 1;
    assert(m * bpp + bpp == n * bpp) by (nonlinear_arith)
        requires
            m == n - 1,
    ;
    assert(0 <= m * bpp && 0 <= c * bpp) by (nonlinear_arith)
        requires
            0 <= m,
            0 <= c,
            0 <= bpp,
    ;
    assert(c * bpp + b < n * bpp) by (nonlinear_arith)
        requires
            c + 1 <= n,
            0 <= b < bpp,
    ;
    lemma_white();
    if c < m {
        assert(c * bpp + bpp <= m * bpp) by (nonlinear_arith)
            requires
                c + 1 <= m,
                0 <= bpp,
        ;
        the_pointer_shows_its_bits(buf, at, bits, bpp, m as nat, c, b);
    } else {
        lemma_pointer_outside(buf, at, bits, bpp, m as nat, at + c * bpp + b);
    }
    let prev = pointer_row(buf, at, bits, bpp, m as nat);
    lemma_pointer_length(buf, at, bits, bpp, m as nat);
    pixels_hold_their_colour(prev, at + m * bpp, 0xFFFFFF, bpp, at + c * bpp + b);
}

proof fn lemma_white()
    ensures
        color_byte(0xFFFFFF, 0) == 0xFF && color_byte(0xFFFFFF, 1) == 0xFF && color_byte(0xFFFFFF, 2)
            == 0xFF,
{
    assert(0xFFFFFFu32 as u8 == 0xFF && (0xFFFFFFu32 >> 8) as u8 == 0xFF && (0xFFFFFFu32 >> 16) as u8
        == 0xFF) by (bit_vector);
}

proof fn lemma_pointer_length(buf: Seq<u8>, at: int, bits: u16, bpp: int, n: nat)
    requires
        bpp == 1 || bpp == 3,
    ensures
        pointer_row(buf, at, bits, bpp, n).len() == buf.len(),
    decreases n,
{
    if n > 0 {
        lemma_pointer_length(buf, at, bits, bpp, (n - 1) as nat);
    }
}

proof fn lemma_pointer_outside(buf: Seq<u8>, at: int, bits: u16, bpp: int, n: nat, k: int)
    requires
        bpp == 1 || bpp == 3,
        0 <= at,
        at + n * bpp <= buf.len(),
        0 <= k < buf.len(),
        k < at || at + n * bpp <= k,
    ensures
        pointer_row(buf, at, bits, bpp, n)[k] == buf[k],
    decreases n,
{
    if n > 0 {
        let m = n - 1;
        assert(m * bpp + bpp == n * bpp) by (nonlinear_arith)
            requires
                m == n - 1,
        ;
        assert(0 <= m * bpp) by (nonlinear_arith)
            requires
                0 <= m,
                0 <= bpp,
        ;
        lemma_pointer_outside(buf, at, bits, bpp, m as nat, k);
        lemma_pointer_length(buf, at, bits, bpp, m as nat);
        pixels_hold_their_colour(
            pointer_row(buf, at, bits, bpp, m as nat), at + m * bpp, 0xFFFFFF, bpp, k,
        );
    }
}

/// The rows of the pointer lie below each other, each with the bits of its own row.
pub proof fn the_rows_of_the_pointer_lie_below_each_other(
    buf: Seq<u8>, at: int, stride: int, bitmap: Seq<u16>, cols: nat, bpp: int, n: nat,
)
    requires
        n < bitmap.len(),
    ensures
        pointer_rows(buf, at, stride, bitmap, cols, bpp, 0) == buf,
        pointer_rows(buf, at, stride, bitmap, cols, bpp, n + 1) == pointer_row(
            pointer_rows(buf, at, stride, bitmap, cols, bpp, n), at + n * stride, bitmap[n as int], bpp,
            cols,
        ),
{
}

#[verifier::rlimit(50)]
proof fn lemma_pasted(
    f: Frame, src: Seq<u8>, sw: int, x: int, y: int, w: int, rows: int, bpp: int, px: int, py: int,
    b: int,
)
    requires
        whole(f, bpp),
        f.origin == 0,
        0 <= x,
        0 <= y,
        0 <= w <= sw,
        0 <= rows,
        x + w <= f.width,
        y + rows <= f.height,
        sw * bpp * rows <= src.len(),
        on(f, px, py, b, bpp),
    ensures
        ({
            let out = f.with(
                rows_copied(
                    f.pixels, f.at(x, y, bpp), f.stride as int, src, 0, sw * bpp, w * bpp, rows as nat,
                ),
            );
            &&& out.same_shape(f)
            &&& pixel(out, px, py, b, bpp) == (if in_part(px, py, x, y, w, rows) {
                src[((py - y) * sw + (px - x)) * bpp + b]
            } else {
                pixel(f, px, py, b, bpp)
            })
        }),
{
    let s = f.stride as int;
    let at = f.at(x, y, bpp);
    let len = w * bpp;
    let t = sw * bpp;
    assert(0 <= y * s && 0 <= x * bpp && 0 <= len <= t) by (nonlinear_arith)
        requires
            0 <= y,
            0 <= s,
            0 <= x,
            0 <= bpp,
            len == w * bpp,
            t == sw * bpp,
            0 <= w <= sw,
    ;
    assert(x * bpp + len <= f.width * bpp) by (nonlinear_arith)
        requires
            x + w <= f.width,
            0 <= bpp,
            len == w * bpp,
    ;
    assert(px * bpp + bpp <= f.width * bpp && 0 <= px * bpp) by (nonlinear_arith)
        requires
            0 <= px,
            px + 1 <= f.width,
            0 <= bpp,
    ;
    if rows > 0 {
        assert((y + rows - 1) * s == y * s + (rows - 1) * s) by (nonlinear_arith);
        assert((y + rows - 1) * s <= (f.height - 1) * s) by (nonlinear_arith)
            requires
                y + rows <= f.height,
                0 <= s,
        ;
        assert((rows - 1) * t + t == t * rows) by (nonlinear_arith);
    }
    crate::console::graphics::lemma_rows_copied_len(f.pixels, at, s, src, 0, t, len, rows as nat);
    lemma_in_frame(f, px, py, b, bpp);
    let d = px * bpp + b - x * bpp;
    let r = if d >= 0 { py - y } else { py - y - 1 };
    let i = if d >= 0 { d } else { d + s };
    assert(f.at(px, py, bpp) + b == at + r * s + i) by (nonlinear_arith)
        requires
            f.at(px, py, bpp) == py * s + px * bpp,
            at == y * s + x * bpp,
            d == px * bpp + b - x * bpp,
            (r == py - y && i == d) || (r == py - y - 1 && i == d + s),
    ;
    copied_rows_are_the_same(f.pixels, at, s, src, 0, t, len, rows as nat, r, i);
    assert((d >= 0 && d < len) == (x <= px < x + w)) by (nonlinear_arith)
        requires
            d == px * bpp + b - x * bpp,
            len == w * bpp,
            0 <= b < bpp,
    ;
    assert(((py - y) * sw + (px - x)) * bpp + b == (py - y) * t + d) by (nonlinear_arith)
        requires
            t == sw * bpp,
            d == px * bpp + b - x * bpp,
    ;
}

/// A window that is dragged is shown where it is now, as it was when the drag began. Where it was shown
/// before, there is what lies behind it. All other pixels stay.
#[verifier::rlimit(50)]
pub proof fn dragged_windows_are_shown_where_they_are(
    c: Compositor, d: DragRender, x: int, y: int, b: int,
)
    requires
        c.wf(),
        c.drag_wf(d),
        whole(c.fb@, c.bpp()),
        c.scratch.pixels@.len() >= c.fb.pixels@.len(),
        d.prev_y <= c.fb.height,
        c.windows@[d.window_idx as int].y <= c.fb.height,
        on(c.fb@, x, y, b, c.bpp()),
    ensures
        ({
            let w = c.windows@[d.window_idx as int];
            let bpp = c.bpp();
            let now = in_part(x, y, w.x as int, w.y as int, d.snap_w as int, d.snap_h as int);
            let before = in_part(
                x, y, d.prev_x as int, d.prev_y as int, d.snap_w as int, d.snap_h as int,
            );
            pixel(c.dragged(d), x, y, b, bpp) == (if now {
                d.snapshot@[((y - w.y) * d.snap_w + (x - w.x)) * bpp + b]
            } else if before {
                pixel(c.scratch@, x, y, b, bpp)
            } else {
                pixel(c.fb@, x, y, b, bpp)
            })
        }),
{
    let bpp = c.bpp();
    let f = c.fb@;
    let w = c.windows@[d.window_idx as int];
    let old_w = lesser(d.snap_w as int, f.width - d.prev_x);
    let old_h = rows_above(d.prev_y as int, d.snap_h as int, f.height as int);
    let new_w = lesser(d.snap_w as int, f.width - w.x);
    let new_h = rows_above(w.y as int, d.snap_h as int, f.height as int);
    lemma_restored(
        f, c.scratch@.pixels, d.prev_x as int, d.prev_y as int, old_w, old_h, bpp, x, y, b,
    );
    let bare = restored(
        f, c.scratch@.pixels, d.prev_x as int, d.prev_y as int, old_w, old_h, bpp,
    );
    let row = d.snap_w * bpp;
    assert(row * new_h <= row * d.snap_h) by (nonlinear_arith)
        requires
            0 <= row,
            new_h <= d.snap_h,
    ;
    lemma_pasted(
        bare, d.snapshot@, d.snap_w as int, w.x as int, w.y as int, new_w, new_h, bpp, x, y, b,
    );
    assert(c.dragged(d).pixels == bare.with(
        rows_copied(
            bare.pixels, bare.at(w.x as int, w.y as int, bpp), bare.stride as int, d.snapshot@, 0,
            d.snap_w * bpp, new_w * bpp, new_h as nat,
        ),
    ).pixels);
    assert(c.scratch@.at(x, y, bpp) == f.at(x, y, bpp));
}

#[verifier::rlimit(50)]
proof fn lemma_pointer_rows(
    buf: Seq<u8>, at: int, stride: int, bitmap: Seq<u16>, cols: nat, bpp: int, n: nat, r: int, c: int,
    b: int,
)
    requires
        bpp == 1 || bpp == 3,
        0 <= at,
        cols <= 16,
        cols * bpp <= stride,
        n <= bitmap.len(),
        n > 0 ==> at + (n - 1) * stride + cols * bpp <= buf.len(),
        0 <= r,
        0 <= c < cols,
        0 <= b < bpp,
        at + r * stride + c * bpp + b < buf.len(),
    ensures
        pointer_rows(buf, at, stride, bitmap, cols, bpp, n).len() == buf.len(),
        pointer_rows(buf, at, stride, bitmap, cols, bpp, n)[at + r * stride + c * bpp + b] == (if r < n
            && (bitmap[r] >> ((15 - c) as u16)) & 1 == 1 {
            0xFFu8
        } else {
            buf[at + r * stride + c * bpp + b]
        }),
    decreases n,
{
    let k = at + r * stride + c * bpp + b;
    assert(0 <= r * stride && 0 <= c * bpp) by (nonlinear_arith)
        requires
            0 <= r,
            0 <= stride,
            0 <= c,
            0 <= bpp,
    ;
    assert(c * bpp + b < cols * bpp) by (nonlinear_arith)
        requires
            c + 1 <= cols,
            0 <= b < bpp,
    ;
    if n > 0 {
        let m = n - 1;
        assert(0 <= m * stride) by (nonlinear_arith)
            requires
                0 <= m,
                0 <= stride,
        ;
        if m > 0 {
            assert((m - 1) * stride <= m * stride) by (nonlinear_arith)
                requires
                    0 <= stride,
            ;
        }
        lemma_pointer_rows(buf, at, stride, bitmap, cols, bpp, m as nat, r, c, b);
        let prev = pointer_rows(buf, at, stride, bitmap, cols, bpp, m as nat);
        lemma_pointer_length(prev, at + m * stride, bitmap[m], bpp, cols);
        if r == m {
            the_pointer_shows_its_bits(prev, at + m * stride, bitmap[m], bpp, cols, c, b);
        } else {
            if r < m {
                assert(r * stride + stride <= m * stride) by (nonlinear_arith)
                    requires
                        r + 1 <= m,
                        0 <= stride,
                ;
            } else {
                assert(m * stride + stride <= r * stride) by (nonlinear_arith)
                    requires
                        m + 1 <= r,
                        0 <= stride,
                ;
            }
            lemma_pointer_outside(prev, at + m * stride, bitmap[m], bpp, cols, k);
        }
    }
}

/// The pointer lies at its place: each of its rows below the one before, white where its bits are set.
/// Where they are not, what is behind it shows.
#[verifier::rlimit(50)]
pub proof fn the_pointer_lies_at_its_place(
    comp: Compositor, screen: Frame, x: u16, y: u16, r: int, c: int, b: int,
)
    requires
        comp.wf(),
        whole(screen, comp.bpp()),
        screen.same_shape(comp.fb@),
        x <= comp.fb.width,
        y <= comp.fb.height,
        0 <= r < comp.current_cursor.height,
        0 <= c < comp.current_cursor.width,
        on(screen, x + c, y + r, b, comp.bpp()),
    ensures
        ({
            let bits = comp.current_cursor.bitmap@[r];
            pixel(comp.pointer_drawn(screen, x, y), x + c, y + r, b, comp.bpp()) == (if (bits >> ((15
                - c) as u16)) & 1 == 1 {
                0xFFu8
            } else {
                pixel(screen, x + c, y + r, b, comp.bpp())
            })
        }),
{
    let bpp = comp.bpp();
    let s = screen.stride as int;
    let at = screen.at(x as int, y as int, bpp);
    let cols = lesser(comp.current_cursor.width as int, comp.fb.width - x);
    let rows = lesser(comp.current_cursor.height as int, comp.fb.height - y);
    assert(0 <= y * s && 0 <= x * bpp) by (nonlinear_arith)
        requires
            0 <= y,
            0 <= s,
            0 <= x,
            0 <= bpp,
    ;
    assert(x * bpp + cols * bpp <= screen.width * bpp && 0 <= cols * bpp) by (nonlinear_arith)
        requires
            x + cols <= screen.width,
            0 <= cols,
            0 <= bpp,
    ;
    assert((y + rows - 1) * s == y * s + (rows - 1) * s) by (nonlinear_arith);
    assert((y + rows - 1) * s <= (screen.height - 1) * s) by (nonlinear_arith)
        requires
            y + rows <= screen.height,
            0 <= s,
    ;
    assert(screen.at(x + c, y + r, bpp) == at + r * s + c * bpp) by (nonlinear_arith)
        requires
            screen.at(x + c, y + r, bpp) == screen.origin + (y + r) * s + (x + c) * bpp,
            at == screen.origin + y * s + x * bpp,
    ;
    lemma_in_frame(screen, x + c, y + r, b, bpp);
    lemma_pointer_rows(
        screen.pixels, at, s, comp.current_cursor.bitmap@, cols as nat, bpp, rows as nat, r, c, b,
    );
}

/// Where the pointer was, the picture is shown again.
pub proof fn the_old_pointer_is_taken_away(comp: Compositor, screen: Frame, x: int, y: int, b: int)
    requires
        comp.wf(),
        whole(screen, comp.bpp()),
        screen.same_shape(comp.fb@),
        comp.scratch.pixels@.len() >= screen.pixels.len(),
        on(screen, x, y, b, comp.bpp()),
    ensures
        pixel(comp.pointer_removed(screen), x, y, b, comp.bpp()) == (if in_part(
            x, y, comp.cursor_x as int, comp.cursor_y as int, comp.current_cursor.width as int,
            comp.current_cursor.height as int,
        ) {
            pixel(comp.scratch@, x, y, b, comp.bpp())
        } else {
            pixel(screen, x, y, b, comp.bpp())
        }),
{
    let cols = lesser(comp.current_cursor.width as int, comp.fb.width - comp.cursor_x);
    let rows = lesser(comp.current_cursor.height as int, comp.fb.height - comp.cursor_y);
    lemma_restored(
        screen, comp.scratch@.pixels, comp.cursor_x as int, comp.cursor_y as int, cols, rows, comp.bpp(),
        x, y, b,
    );
    assert(comp.scratch@.at(x, y, comp.bpp()) == screen.at(x, y, comp.bpp()));
}

} // verus!
