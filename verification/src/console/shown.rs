//! What a window shows of its console, from edge to edge.
use vstd::prelude::*;

use crate::bits::lesser;
use crate::console::compositor::{tiled_before, tiled_count, Window, WindowMode};
use crate::console::decor::{Decor, DecorMetrics, FlatDecor};
use crate::console::font::{glyph_row, BitmapFont, Font};
use crate::console::graphics::{
    block_fill_paints_exactly_the_block, block_filled, color_byte, lemma_block_len, Frame, ACCENT,
    BTN_HOVER_BG, SB_ARROW_COLOR, SB_BG, SB_TRACK, WIN_BORDER, WIN_TITLEBAR, WIN_TITLEBAR_ACTIVE,
    WIN_TITLE_TEXT,
};
use crate::console::layout::{in_part, texts_fit_or_scroll};
use crate::console::picture::{
    console_shade, lemma_row_apart, on, pixel, whole, windows_show_the_console,
    windows_show_their_graphics,
};
use crate::console::scene::{
    drawing, place, sub_frame, tile, window_added, windows_drawn, Look, Scene,
};
use crate::console::screen::{Console, GraphicsBuffer};
use crate::console::scrollbar::{
    arrow_button, horizontal_drawn, triangle, vertical_drawn, ArrowDir,
};
use crate::console::window::{
    char_width, first_col, first_row, graphics_rows, horizontal_hover, scrollbars_drawn, text_layout,
    text_rows_drawn, vertical_hover, window_cleared, window_drawn, WindowStyle,
};

verus! {

proof fn lemma_empty_block(buf: Seq<u8>, start: int, stride: int, h: nat, color: u32, bpp: int)
    ensures
        block_filled(buf, start, stride, 0, h, color, bpp) == buf,
    decreases h,
{
    if h > 0 {
        lemma_empty_block(buf, start, stride, (h - 1) as nat, color, bpp);
    }
}

/// A part that is filled has its colour, and every other pixel stays.
#[verifier::rlimit(50)]
pub proof fn filled_parts_have_their_colour(
    f: Frame, left: int, top: int, w: int, h: int, color: u32, bpp: int, x: int, y: int, b: int,
)
    requires
        whole(f, bpp),
        0 <= left,
        0 <= top,
        0 <= w,
        0 <= h,
        left + w <= f.width,
        top + h <= f.height,
        on(f, x, y, b, bpp),
    ensures
        ({
            let g = f.filled(left, top, w, h, color, bpp);
            &&& g.same_shape(f)
            &&& whole(g, bpp)
            &&& pixel(g, x, y, b, bpp) == (if in_part(x, y, left, top, w, h) {
                color_byte(color, b)
            } else {
                pixel(f, x, y, b, bpp)
            })
        }),
{
    let s = f.stride as int;
    let start = f.at(left, top, bpp);
    let g = f.filled(left, top, w, h, color, bpp);
    lemma_block_len(f.pixels, start, s, w as nat, h as nat, color, bpp);
    if w == 0 {
        lemma_empty_block(f.pixels, start, s, h as nat, color, bpp);
    } else if h > 0 {
        assert(0 <= top * s && 0 <= left * bpp) by (nonlinear_arith)
            requires
                0 <= top,
                0 <= s,
                0 <= left,
                0 <= bpp,
        ;
        assert(left * bpp + w * bpp <= f.width * bpp) by (nonlinear_arith)
            requires
                left + w <= f.width,
                0 <= bpp,
        ;
        assert((top + h - 1) * s == top * s + (h - 1) * s) by (nonlinear_arith);
        assert((top + h - 1) * s <= (f.height - 1) * s) by (nonlinear_arith)
            requires
                top + h <= f.height,
                0 <= s,
        ;
        block_fill_paints_exactly_the_block(
            f.pixels, start, s, w as nat, h as nat, color, bpp,
        );
        let k = f.at(x, y, bpp) + b;
        lemma_row_apart_from(f, x, y, b, bpp);
        if in_part(x, y, left, top, w, h) {
            let r = y - top;
            let c = x - left;
            assert(k == start + r * s + c * bpp + b) by (nonlinear_arith)
                requires
                    k == f.origin + y * s + x * bpp + b,
                    start == f.origin + top * s + left * bpp,
                    r == y - top,
                    c == x - left,
            ;
        } else {
            assert forall|r: int| 0 <= r < h implies !(#[trigger] (start + r * s) <= k < start + r * s + w
                * bpp) by {
                assert(f.at(left, top + r, bpp) == start + r * s) by (nonlinear_arith)
                    requires
                        f.at(left, top + r, bpp) == f.origin + (top + r) * s + left * bpp,
                        start == f.origin + top * s + left * bpp,
                ;
                if y == top + r {
                    if x < left {
                        assert(x * bpp + bpp <= left * bpp) by (nonlinear_arith)
                            requires
                                x + 1 <= left,
                                0 <= bpp,
                        ;
                    } else {
                        assert(left * bpp + w * bpp <= x * bpp) by (nonlinear_arith)
                            requires
                                left + w <= x,
                                0 <= bpp,
                        ;
                    }
                } else {
                    lemma_row_apart(f, left, top + r, w, x, y, bpp);
                }
            }
            assert(g.pixels[k] == f.pixels[k]);
        }
    }
}

proof fn lemma_row_apart_from(f: Frame, x: int, y: int, b: int, bpp: int)
    requires
        whole(f, bpp),
        on(f, x, y, b, bpp),
    ensures
        0 <= f.at(x, y, bpp) + b < f.pixels.len(),
{
    let s = f.stride as int;
    assert(0 <= y * s && 0 <= x * bpp) by (nonlinear_arith)
        requires
            0 <= y,
            0 <= s,
            0 <= x,
            0 <= bpp,
    ;
    assert(y * s <= (f.height - 1) * s) by (nonlinear_arith)
        requires
            y <= f.height - 1,
            0 <= s,
    ;
    assert(x * bpp + bpp <= f.width * bpp) by (nonlinear_arith)
        requires
            x + 1 <= f.width,
            0 <= bpp,
    ;
}

proof fn lemma_glyph_row_shape(
    f: Frame, px: int, py: int, bits: u8, fg: u32, bg: Option<u32>, bpp: int, n: nat,
)
    ensures
        glyph_row(f, px, py, bits, fg, bg, bpp, n).same_shape(f),
    decreases n,
{
    if n > 0 {
        lemma_glyph_row_shape(f, px, py, bits, fg, bg, bpp, (n - 1) as nat);
    }
}

proof fn lemma_glyph_shape(
    font: BitmapFont, f: Frame, px: int, py: int, ch: u8, fg: u32, bg: Option<u32>, bpp: int, n: nat,
)
    ensures
        font.glyph_rows(f, px, py, ch, fg, bg, bpp, n).same_shape(f),
    decreases n,
{
    if n > 0 {
        lemma_glyph_shape(font, f, px, py, ch, fg, bg, bpp, (n - 1) as nat);
        lemma_glyph_row_shape(
            font.glyph_rows(f, px, py, ch, fg, bg, bpp, (n - 1) as nat), px, py + (n - 1),
            font.bits(ch, n - 1), fg, bg, bpp, font.columns(),
        );
    }
}

proof fn lemma_run_shape(
    font: BitmapFont, f: Frame, x: int, y: int, cells: Seq<(u8, u32, Option<u32>)>, bpp: int, n: nat,
)
    ensures
        font.run(f, x, y, cells, bpp, n).same_shape(f),
    decreases n,
{
    if n > 0 {
        lemma_run_shape(font, f, x, y, cells, bpp, (n - 1) as nat);
        let (ch, fg, bg) = cells[n - 1];
        lemma_glyph_shape(
            font, font.run(f, x, y, cells, bpp, (n - 1) as nat), x + (n - 1) * font.width, y, ch, fg, bg,
            bpp, font.height as nat,
        );
    }
}

/// Drawing changed nothing of the shape of a frame, nor the pixel.
spec fn keeps(f: Frame, g: Frame, bpp: int, x: int, y: int, b: int) -> bool {
    g.same_shape(f) && whole(g, bpp) && pixel(g, x, y, b, bpp) == pixel(f, x, y, b, bpp)
}

proof fn lemma_triangle(
    f: Frame, left: int, top: int, dir: ArrowDir, bpp: int, n: nat, x: int, y: int, b: int,
)
    requires
        whole(f, bpp),
        n <= 5,
        0 <= left,
        0 <= top,
        left + 14 <= f.width,
        top + 14 <= f.height,
        on(f, x, y, b, bpp),
        !in_part(x, y, left, top, 14, 14),
    ensures
        keeps(f, triangle(f, left, top, dir, bpp, n), bpp, x, y, b),
    decreases n,
{
    if n > 0 {
        lemma_triangle(f, left, top, dir, bpp, (n - 1) as nat, x, y, b);
        let prev = triangle(f, left, top, dir, bpp, (n - 1) as nat);
        let i = n - 1;
        let color = SB_ARROW_COLOR;
        match dir {
            ArrowDir::Up => filled_parts_have_their_colour(
                prev, left + 7 - i, top + 4 + i, 2 * i + 1, 1, color, bpp, x, y, b,
            ),
            ArrowDir::Down => filled_parts_have_their_colour(
                prev, left + 3 + i, top + 5 + i, 9 - 2 * i, 1, color, bpp, x, y, b,
            ),
            ArrowDir::Left => filled_parts_have_their_colour(
                prev, left + 4 + i, top + 7 - i, 1, 2 * i + 1, color, bpp, x, y, b,
            ),
            ArrowDir::Right => filled_parts_have_their_colour(
                prev, left + 5 + i, top + 3 + i, 1, 9 - 2 * i, color, bpp, x, y, b,
            ),
        }
    }
}

proof fn lemma_arrow(
    f: Frame, left: int, top: int, bpp: int, bg: u32, dir: ArrowDir, x: int, y: int, b: int,
)
    requires
        whole(f, bpp),
        0 <= left,
        0 <= top,
        left + 14 <= f.width,
        top + 14 <= f.height,
        on(f, x, y, b, bpp),
        !in_part(x, y, left, top, 14, 14),
    ensures
        keeps(f, arrow_button(f, left, top, bpp, bg, dir), bpp, x, y, b),
{
    filled_parts_have_their_colour(f, left, top, 14, 14, bg, bpp, x, y, b);
    lemma_triangle(f.filled(left, top, 14, 14, bg, bpp), left, top, dir, bpp, 5, x, y, b);
}

proof fn lemma_vertical(
    f: Frame, left: int, top: int, height: int, bpp: int, hover: Option<bool>, x: int, y: int, b: int,
)
    requires
        whole(f, bpp),
        0 <= left,
        0 <= top,
        0 <= height,
        left + 14 <= f.width,
        top + height <= f.height,
        top + 14 <= f.height,
        on(f, x, y, b, bpp),
        x < left,
    ensures
        keeps(f, vertical_drawn(f, left, top, height, bpp, hover), bpp, x, y, b),
{
    let track = f.filled(left, top, 14, height, SB_TRACK, bpp);
    filled_parts_have_their_colour(
        f, left, top, 14, height, SB_TRACK, bpp, x, y, b,
    );
    let up = crate::console::scrollbar::arrow_bg(hover, true);
    lemma_arrow(track, left, top, bpp, up, ArrowDir::Up, x, y, b);
    if height >= 14 {
        lemma_arrow(
            arrow_button(track, left, top, bpp, up, ArrowDir::Up), left, top + height - 14, bpp,
            crate::console::scrollbar::arrow_bg(hover, false), ArrowDir::Down, x, y, b,
        );
    }
}

proof fn lemma_horizontal(
    f: Frame, left: int, top: int, width: int, bpp: int, hover: Option<bool>, x: int, y: int, b: int,
)
    requires
        whole(f, bpp),
        0 <= left,
        0 <= top,
        0 <= width,
        left + width <= f.width,
        left + 14 <= f.width,
        top + 14 <= f.height,
        on(f, x, y, b, bpp),
        y < top,
    ensures
        keeps(f, horizontal_drawn(f, left, top, width, bpp, hover), bpp, x, y, b),
{
    let track = f.filled(left, top, width, 14, SB_TRACK, bpp);
    filled_parts_have_their_colour(
        f, left, top, width, 14, SB_TRACK, bpp, x, y, b,
    );
    let first = crate::console::scrollbar::arrow_bg(hover, true);
    lemma_arrow(track, left, top, bpp, first, ArrowDir::Left, x, y, b);
    if width >= 14 {
        lemma_arrow(
            arrow_button(track, left, top, bpp, first, ArrowDir::Left), left + width - 14, top, bpp,
            crate::console::scrollbar::arrow_bg(hover, false), ArrowDir::Right, x, y, b,
        );
    }
}

proof fn lemma_border(
    decor: FlatDecor, f: Frame, w: int, h: int, focused: bool, bpp: int, x: int, y: int, b: int,
)
    requires
        whole(f, bpp),
        0 <= w,
        0 <= h,
        w + 2 <= f.width,
        h + decor.bar_height + 2 <= f.height,
        on(f, x, y, b, bpp),
        in_part(x, y, 1, 1, w, h + decor.bar_height),
    ensures
        keeps(
            f, f.with(Decor::<BitmapFont>::border_drawn(&decor, f, w, h, focused, bpp)), bpp, x, y, b,
        ),
{
    let color = if focused {
        ACCENT
    } else {
        WIN_BORDER
    };
    let ww = w + 2;
    let hh = h + decor.bar_height + 2;
    let a = f.filled(0, 0, ww, 1, color, bpp);
    filled_parts_have_their_colour(f, 0, 0, ww, 1, color, bpp, x, y, b);
    let c = a.filled(0, hh - 1, ww, 1, color, bpp);
    filled_parts_have_their_colour(a, 0, hh - 1, ww, 1, color, bpp, x, y, b);
    let d = c.filled(0, 0, 1, hh, color, bpp);
    filled_parts_have_their_colour(c, 0, 0, 1, hh, color, bpp, x, y, b);
    filled_parts_have_their_colour(d, ww - 1, 0, 1, hh, color, bpp, x, y, b);
}

#[verifier::rlimit(50)]
proof fn lemma_cleared(
    f: Frame, con: Console, font: BitmapFont, decor: FlatDecor, s: WindowStyle, bpp: int,
)
    requires
        whole(f, bpp),
    ensures
        window_cleared(f, con, &font, &decor, s, bpp).same_shape(f),
{
    let width = s.avail_w + 2;
    let h = decor.bar_height as int;
    let color = if s.focused {
        WIN_TITLEBAR_ACTIVE
    } else {
        WIN_TITLEBAR
    };
    let bar = f.filled(0, 0, width, h, color, bpp);
    lemma_block_len(
        f.pixels, f.at(0, 0, bpp), f.stride as int, width as nat, h as nat, color, bpp,
    );
    let cells = Seq::new(
        con.title@.len(), |i: int| (con.title@[i], WIN_TITLE_TEXT, None::<u32>),
    );
    lemma_run_shape(font, bar, 4, 2, cells, bpp, con.title@.len());
    let named = bar.with(
        font.text_drawn(bar, 4, 2, con.title@, WIN_TITLE_TEXT, bpp),
    );
    if let Some(btn) = s.hover_button {
        let left = decor.button_left(width, btn as int);
        let hw = if left + h <= width { h } else { 0 };
        lemma_block_len(
            named.pixels, named.at(left, 0, bpp), f.stride as int, hw as nat, h as nat,
            BTN_HOVER_BG, bpp,
        );
    }
    let barred = f.with(
        Decor::<BitmapFont>::bar_drawn(
            &decor, f, s.avail_w as int, &font, con.title@, s.focused, bpp, s.hover_button,
        ),
    );
    lemma_block_len(
        barred.pixels, barred.at(1, h + 1, bpp), f.stride as int, s.avail_w as nat, s.avail_h as nat, 0,
        bpp,
    );
}

/// A window shows the cells of its console from the row and the column that it was scrolled to, each in
/// its place below the bar, whatever bars, arrows and borders are drawn around them.
#[verifier::rlimit(50)]
pub proof fn windows_show_their_console_in_place(
    f: Frame, con: Console, font: BitmapFont, decor: FlatDecor, s: WindowStyle, bpp: int, r: int, c: int,
    gx: int, gy: int, b: int,
)
    requires
        font.wf(),
        font.height > 0,
        whole(f, bpp),
        con.terminal.graphics_buffer is None,
        s.force || con.dirty,
        14 <= s.avail_w,
        14 <= s.avail_h,
        s.avail_w + 2 <= f.width,
        s.avail_h + decor.bar_height + 2 <= f.height,
        0 <= gx < font.width,
        0 <= gy < font.height,
        0 <= b < bpp,
        ({
            let l = text_layout(
                s.avail_w as int, s.avail_h as int, font.width as int, font.height as int,
            );
            &&& 0 <= r < l.rows && 0 <= c < l.cols
            &&& l.need_h ==> l.area_w >= 14
            &&& l.need_v ==> l.area_h >= 14
        }),
    ensures
        ({
            let l = text_layout(
                s.avail_w as int, s.avail_h as int, font.width as int, font.height as int,
            );
            let row = first_row(con.scroll_row, 25 - l.rows) + r;
            let col = first_col(con.scroll_col, 80 - l.cols) + c;
            let x = 1 + c * font.width + gx;
            let y = decor.bar_height + 1 + r * font.height + gy;
            pixel(window_drawn(f, con, &font, &decor, s, bpp).frame, x, y, b, bpp) == console_shade(
                con, font, row, col, gx, gy, b,
            )
        }),
{
    reveal(window_drawn);
    let (w, h) = (s.avail_w as int, s.avail_h as int);
    let (cw, ch) = (font.width as int, font.height as int);
    let top = decor.bar_height + 1int;
    let l = text_layout(w, h, cw, ch);
    texts_fit_or_scroll(w, h, cw, ch);
    assert(char_width(&font) == cw);
    let m = Decor::<BitmapFont>::spec_metrics(&decor);
    let cleared = window_cleared(f, con, &font, &decor, s, bpp);
    lemma_cleared(f, con, font, decor, s, bpp);
    let (row, col) = (first_row(con.scroll_row, 25 - l.rows), first_col(con.scroll_col, 80 - l.cols));
    let x = 1 + c * cw + gx;
    let y = top + r * ch + gy;
    assert(c * cw + cw <= l.cols * cw && 0 <= c * cw) by (nonlinear_arith)
        requires
            0 <= c,
            c + 1 <= l.cols,
            0 <= cw,
    ;
    assert(r * ch + ch <= l.rows * ch && 0 <= r * ch) by (nonlinear_arith)
        requires
            0 <= r,
            r + 1 <= l.rows,
            0 <= ch,
    ;
    windows_show_the_console(
        cleared, con, font, 1, top, row, col, l.rows as nat, l.cols as int, bpp, r, c, gx, gy, b,
    );
    let text = text_rows_drawn(
        cleared, con, &font, 1, top, row, col, l.cols as int, bpp, l.rows as nat,
    );
    let (vh, hh) = (vertical_hover(s.hover_scroll), horizontal_hover(s.hover_scroll));
    let a = if l.need_v {
        vertical_drawn(text, 1 + l.area_w, top, l.area_h as int, bpp, vh)
    } else {
        text
    };
    if l.need_v {
        lemma_vertical(text, 1 + l.area_w, top, l.area_h as int, bpp, vh, x, y, b);
    }
    let d = if l.need_h {
        horizontal_drawn(a, 1, top + l.area_h, l.area_w as int, bpp, hh)
    } else {
        a
    };
    if l.need_h {
        lemma_horizontal(a, 1, top + l.area_h, l.area_w as int, bpp, hh, x, y, b);
    }
    let barred = scrollbars_drawn(text, m, l, s.hover_scroll, bpp);
    if l.need_v && l.need_h {
        filled_parts_have_their_colour(
            d, 1 + l.area_w, top + l.area_h, 14, 14, SB_BG, bpp, x, y, b,
        );
    }
    lemma_border(decor, barred, w, h, s.focused, bpp, x, y, b);
}

/// A window whose console has a picture shows it, pixel by pixel, as far as the window reaches.
#[verifier::rlimit(50)]
pub proof fn windows_show_their_picture_in_place(
    f: Frame, con: Console, g: GraphicsBuffer, font: BitmapFont, decor: FlatDecor, s: WindowStyle,
    bpp: int, px: int, py: int, b: int,
)
    requires
        whole(f, bpp),
        con.terminal.graphics_buffer == Some(g),
        g.wf(),
        g.bytes_per_pixel() == bpp || g.bytes_per_pixel() == 1,
        s.force || con.dirty || g.dirty is Some,
        s.avail_w + 2 <= f.width,
        s.avail_h + decor.bar_height + 2 <= f.height,
        0 <= px < g.width,
        0 <= py < g.height,
        px < s.avail_w,
        py < s.avail_h,
        0 <= b < bpp,
    ensures
        pixel(
            window_drawn(f, con, &font, &decor, s, bpp).frame, 1 + px, decor.bar_height + 1 + py, b, bpp,
        ) == (if g.bytes_per_pixel() == bpp {
            g.pixels@[(py * g.width + px) * bpp + b]
        } else {
            color_byte(con.terminal.palette@[g.pixels@[py * g.width + px] as int], b)
        }),
        window_drawn(f, con, &font, &decor, s, bpp).graphics_shown,
{
    reveal(window_drawn);
    let (w, h) = (s.avail_w as int, s.avail_h as int);
    let top = decor.bar_height + 1int;
    let cleared = window_cleared(f, con, &font, &decor, s, bpp);
    lemma_cleared(f, con, font, decor, s, bpp);
    let (x, y) = (1 + px, top + py);
    let (gw, gh) = (lesser(g.width as int, w), lesser(g.height as int, h));
    let palette = con.terminal.palette@;
    windows_show_their_graphics(cleared, g, palette, 1, top, gw, bpp, gh as nat, x, y, b);
    let shown = graphics_rows(cleared, g, palette, 1, top, gw, bpp, gh as nat);
    lemma_border(decor, shown, w, h, s.focused, bpp, x, y, b);
}

/// A part of a frame has the pixels of the frame from its place on.
pub proof fn parts_of_frames_share_pixels(
    f: Frame, left: int, top: int, bpp: int, x: int, y: int, b: int,
)
    ensures
        pixel(sub_frame(f, left, top, bpp), x, y, b, bpp) == pixel(f, left + x, top + y, b, bpp),
        f.with(sub_frame(f, left, top, bpp).pixels) == f,
{
    let s = f.stride as int;
    assert(sub_frame(f, left, top, bpp).at(x, y, bpp) == f.at(left + x, top + y, bpp)) by (nonlinear_arith)
        requires
            f.at(left, top, bpp) == f.origin + top * s + left * bpp,
            sub_frame(f, left, top, bpp).at(x, y, bpp) == f.at(left, top, bpp) + y * s + x * bpp,
            f.at(left + x, top + y, bpp) == f.origin + (top + y) * s + (left + x) * bpp,
    ;
}

/// A window is drawn at its place on the screen: its pixels lie from there on. It remembers its size, and
/// what a click on it hits is behind all that was there before.
pub proof fn windows_are_drawn_at_their_place<F: Font, D: Decor<F>>(
    s: Scene, look: Look, font: &F, decor: &D, idx: int, x: int, y: int, b: int,
)
    requires
        0 <= idx < s.windows.len(),
        look.force,
        drawing(s, look, font, decor, idx).frame.same_shape(
            sub_frame(
                s.frame, place(s.windows, look, decor.spec_metrics(), idx).0,
                place(s.windows, look, decor.spec_metrics(), idx).1, look.bpp,
            ),
        ),
    ensures
        ({
            let (left, top, w, h) = place(s.windows, look, decor.spec_metrics(), idx);
            let d = drawing(s, look, font, decor, idx);
            let after = window_added(s, look, font, decor, idx);
            &&& pixel(after.frame, left + x, top + y, b, look.bpp) == pixel(d.frame, x, y, b, look.bpp)
            &&& after.windows[idx].last_width == w as u16 && after.windows[idx].last_height == h as u16
            &&& after.windows[idx].console_index == s.windows[idx].console_index
            &&& after.zones.subrange(0, s.zones.len() as int) == s.zones
        }),
{
    let (left, top, w, h) = place(s.windows, look, decor.spec_metrics(), idx);
    let d = drawing(s, look, font, decor, idx);
    let after = window_added(s, look, font, decor, idx);
    parts_of_frames_share_pixels(after.frame, left, top, look.bpp, x, y, b);
    assert(after.zones.subrange(0, s.zones.len() as int) =~= s.zones);
}

/// A floating window lies where it was moved to and has room for a whole console; a tiled one has its
/// share of the screen.
pub proof fn windows_have_their_places(windows: Seq<Window>, look: Look, m: DecorMetrics, idx: int)
    requires
        0 <= idx < windows.len(),
    ensures
        windows[idx].mode == WindowMode::Floating ==> place(windows, look, m, idx) == (
            windows[idx].x as int,
            windows[idx].y as int,
            640int,
            400int,
        ),
        windows[idx].mode == WindowMode::Tiled ==> place(windows, look, m, idx) == tile(
            look, m, tiled_count(windows), tiled_before(windows, idx),
        ),
        0 <= tiled_before(windows, idx) <= idx,
{
    lemma_tiled_before(windows, idx);
}

proof fn lemma_tiled_before(windows: Seq<Window>, n: int)
    requires
        0 <= n,
    ensures
        0 <= tiled_before(windows, n) <= n,
    decreases n,
{
    if n > 0 {
        lemma_tiled_before(windows, n - 1);
    }
}

/// The number of tiled windows in front of one counts each of them once.
pub proof fn tiled_windows_are_counted(windows: Seq<Window>, w: Window)
    ensures
        tiled_count(windows.push(w)) == tiled_count(windows) + (if w.mode == WindowMode::Tiled {
            1int
        } else {
            0
        }),
        tiled_count(Seq::empty()) == 0,
{
    lemma_count_front(windows, w, windows.len() as int);
}

proof fn lemma_count_front(windows: Seq<Window>, w: Window, n: int)
    requires
        n <= windows.len(),
    ensures
        tiled_before(windows.push(w), n) == tiled_before(windows, n),
    decreases n,
{
    if n > 0 {
        lemma_count_front(windows, w, n - 1);
    }
}

/// All windows of the order are drawn, one after the other, but for the one that is left out.
pub proof fn windows_are_drawn_in_order<F: Font, D: Decor<F>>(
    s: Scene, look: Look, font: &F, decor: &D, order: Seq<usize>, skip: Option<usize>, n: nat,
)
    requires
        n < order.len(),
    ensures
        windows_drawn(s, look, font, decor, order, skip, 0) == s,
        skip == Some(order[n as int]) ==> windows_drawn(s, look, font, decor, order, skip, n + 1)
            == windows_drawn(s, look, font, decor, order, skip, n),
        skip != Some(order[n as int]) ==> windows_drawn(s, look, font, decor, order, skip, n + 1)
            == window_added(
            windows_drawn(s, look, font, decor, order, skip, n), look, font, decor,
            order[n as int] as int,
        ),
{
}

} // verus!
