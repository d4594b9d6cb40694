//! Drawing one console window: decorations, content and scrollbars.
use vstd::prelude::*;

use crate::bits::{lemma_nibbles, lesser};
use crate::bytes::spliced;
use crate::console::decor::{Decor, DecorMetrics};
use crate::console::font::Font;
use crate::console::graphics::{
    copy_span, lemma_sub_block_fits, pixel_written, write_pixel, Frame, Framebuffer, Region,
};
use crate::console::hit::ScrollDirection;
use crate::console::manager::ConsoleManager;
use crate::console::screen::{Cell, Console, GraphicsBuffer, COLS, ROWS};
use crate::console::scrollbar::{
    at_least_arrow, draw_corner, draw_horizontal, draw_vertical, horizontal_drawn, vertical_drawn,
    SCROLLBAR_SIZE,
};
use crate::console::graphics::SB_BG;

verus! {

/// Where the scrollbars of a window were drawn, for hit-testing.
#[derive(Clone, Copy, PartialEq, Eq, Structural, Debug)]
pub struct ScrollbarInfo {
    pub has_vertical: bool,
    pub has_horizontal: bool,
    /// Left of the vertical scrollbar, from the left of the window.
    pub v_x: u16,
    pub v_y: u16,
    pub v_height: u16,
    pub h_x: u16,
    pub h_y: u16,
    pub h_width: u16,
}

/// How the text screen is laid out in the content area of a window.
pub struct TextLayout {
    pub need_v: bool,
    pub need_h: bool,
    pub area_w: usize,
    pub area_h: usize,
    pub rows: usize,
    pub cols: usize,
}

pub open spec fn minus_bar(n: int) -> int {
    if n >= 14 { n - 14 } else { 0 }
}

pub open spec fn fitting(area: int, unit: int, limit: int) -> int {
    if unit > 0 {
        if area / unit < limit { area / unit } else { limit }
    } else {
        limit
    }
}

/// A vertical scrollbar is needed: the text is taller than the area, or than
/// what a horizontal scrollbar leaves of it.
pub open spec fn needs(outer: int, text: int, other_outer: int, other_text: int) -> bool {
    text > outer || (other_text > other_outer && text > outer - 14)
}

/// The layout of 80 by 25 cells in an area, with scrollbars where they do not fit.
pub open spec fn text_layout(outer_w: int, outer_h: int, char_w: int, char_h: int) -> TextLayout {
    let tw = 80 * char_w;
    let th = 25 * char_h;
    let v = needs(outer_h, th, outer_w, tw);
    let h = needs(outer_w, tw, outer_h, th);
    let aw = if v { minus_bar(outer_w) } else { outer_w };
    let ah = if h { minus_bar(outer_h) } else { outer_h };
    TextLayout {
        need_v: v,
        need_h: h,
        area_w: aw as usize,
        area_h: ah as usize,
        rows: fitting(ah, char_h, 25) as usize,
        cols: fitting(aw, char_w, 80) as usize,
    }
}

/// A scrollbar is only reserved where the area has room for it.
pub open spec fn layout_possible(outer_w: int, outer_h: int, char_w: int, char_h: int) -> bool {
    &&& 25 * char_h > outer_h && 80 * char_w <= outer_w ==> outer_w >= 14
    &&& 80 * char_w > outer_w && 25 * char_h <= outer_h ==> outer_h >= 14
}

pub(crate) fn lay_out_text(outer_w: usize, outer_h: usize, char_w: usize, char_h: usize) -> (r: TextLayout)
    requires
        outer_w <= 0xffff,
        outer_h <= 0xffff,
        char_w <= 0xff,
        char_h <= 0xff,
        layout_possible(outer_w as int, outer_h as int, char_w as int, char_h as int),
    ensures
        r == text_layout(outer_w as int, outer_h as int, char_w as int, char_h as int),
        r.rows <= 25,
        r.cols <= 80,
        r.area_w <= outer_w,
        r.area_h <= outer_h,
        char_h > 0 ==> r.rows * char_h <= r.area_h,
        r.need_v ==> r.area_w + 14 == (if outer_w >= 14 { outer_w as int } else { 14 }),
        r.need_h ==> r.area_h + 14 == (if outer_h >= 14 { outer_h as int } else { 14 }),
{
    let total_text_h: usize = ROWS * char_h;
    let total_text_w: usize = COLS * char_w;
    let mut need_v: bool = total_text_h > outer_h;
    let mut need_h: bool = total_text_w > outer_w;
    if need_v && !need_h {
        need_h = total_text_w > outer_w - SCROLLBAR_SIZE;
    }
    if need_h && !need_v {
        need_v = total_text_h > outer_h - SCROLLBAR_SIZE;
    }
    let area_w: usize = if need_v { outer_w.saturating_sub(SCROLLBAR_SIZE) } else { outer_w };
    let area_h: usize = if need_h { outer_h.saturating_sub(SCROLLBAR_SIZE) } else { outer_h };
    let rows: usize = if char_h > 0 {
        let n: usize = area_h / char_h;
        if n < ROWS { n } else { ROWS }
    } else {
        ROWS
    };
    let cols: usize = if char_w > 0 {
        let n: usize = area_w / char_w;
        if n < COLS { n } else { COLS }
    } else {
        COLS
    };
    if char_h > 0 {
        assert(rows * char_h <= area_h) by (nonlinear_arith)
            requires rows <= area_h / char_h, char_h > 0;
    }
    TextLayout { need_v, need_h, area_w, area_h, rows, cols }
}

/// The visible part of one text row, with its colours looked up.
pub open spec fn row_cells(con: Console, row: int, col: int, n: int) -> Seq<(u8, u32, u32)> {
    Seq::new(
        n as nat,
        |c: int| {
            let cell = con.terminal.cells@[row * 80 + col + c];
            (
                cell.glyph,
                con.terminal.palette@[cell.color as int % 16],
                con.terminal.palette@[cell.color as int / 16],
            )
        },
    )
}

/// The first `n` visible text rows.
pub open spec fn text_rows_drawn<F: Font>(
    frame: Frame, con: Console, font: &F, x: int, y: int, row: int, col: int, cols: int, bpp: int,
    n: nat,
) -> Frame
    decreases n,
{
    if n == 0 {
        frame
    } else {
        let prev = text_rows_drawn(frame, con, font, x, y, row, col, cols, bpp, (n - 1) as nat);
        prev.with(
            font.cells_drawn(
                prev, x, y + (n - 1) * font.height(), row_cells(con, row + (n - 1), col, cols), bpp,
            ),
        )
    }
}

/// The first `n` pixels of a row, looked up in the palette.
pub open spec fn palette_row(
    buf: Seq<u8>, at: int, src: Seq<u8>, from: int, palette: Seq<u32>, bpp: int, n: nat,
) -> Seq<u8>
    decreases n,
{
    if n == 0 {
        buf
    } else {
        pixel_written(
            palette_row(buf, at, src, from, palette, bpp, (n - 1) as nat),
            at + (n - 1) * bpp,
            palette[src[from + (n - 1)] as int],
            bpp,
        )
    }
}

/// The first `n` rows of a graphics buffer, copied or looked up in the palette.
/// A depth that is neither the frame's nor one byte is not drawn.
pub open spec fn graphics_rows(
    frame: Frame, g: GraphicsBuffer, palette: Seq<u32>, x: int, y: int, w: int, bpp: int, n: nat,
) -> Frame
    decreases n,
{
    if n == 0 {
        frame
    } else {
        let prev = graphics_rows(frame, g, palette, x, y, w, bpp, (n - 1) as nat);
        let depth = g.bytes_per_pixel();
        let at = frame.at(x, y + (n - 1), bpp);
        let from = (n - 1) * g.width * depth;
        if depth == bpp {
            prev.with(spliced(prev.pixels, at, g.pixels@.subrange(from, from + w * bpp)))
        } else if depth == 1 {
            prev.with(palette_row(prev.pixels, at, g.pixels@, from, palette, bpp, w as nat))
        } else {
            prev
        }
    }
}

/// The frame after both scrollbars and their corner, where needed.
pub open spec fn scrollbars_drawn(
    frame: Frame, m: DecorMetrics, l: TextLayout, hover: Option<ScrollDirection>, bpp: int,
) -> Frame {
    let (cx, cy) = (m.content_x as int, m.content_y as int);
    let a = if l.need_v {
        vertical_drawn(frame, cx + l.area_w, cy, l.area_h as int, bpp, vertical_hover(hover))
    } else {
        frame
    };
    let b = if l.need_h {
        horizontal_drawn(a, cx, cy + l.area_h, l.area_w as int, bpp, horizontal_hover(hover))
    } else {
        a
    };
    if l.need_v && l.need_h { b.filled(cx + l.area_w, cy + l.area_h, 14, 14, SB_BG, bpp) } else { b }
}

pub open spec fn vertical_hover(hover: Option<ScrollDirection>) -> Option<bool> {
    match hover {
        Some(ScrollDirection::Up) => Some(true),
        Some(ScrollDirection::Down) => Some(false),
        _ => None,
    }
}

pub open spec fn horizontal_hover(hover: Option<ScrollDirection>) -> Option<bool> {
    match hover {
        Some(ScrollDirection::Left) => Some(true),
        Some(ScrollDirection::Right) => Some(false),
        _ => None,
    }
}

/// Where the scrollbars are, if there are any.
pub open spec fn scrollbars_of(m: DecorMetrics, l: TextLayout) -> Option<ScrollbarInfo> {
    if l.need_v || l.need_h {
        Some(
            ScrollbarInfo {
                has_vertical: l.need_v,
                has_horizontal: l.need_h,
                v_x: if l.need_v { (m.content_x + l.area_w) as u16 } else { 0 },
                v_y: if l.need_v { m.content_y } else { 0 },
                v_height: if l.need_v { l.area_h as u16 } else { 0 },
                h_x: if l.need_h { m.content_x } else { 0 },
                h_y: if l.need_h { (m.content_y + l.area_h) as u16 } else { 0 },
                h_width: if l.need_h { l.area_w as u16 } else { 0 },
            },
        )
    } else {
        None
    }
}

/// Each scrollbar has room for its second arrow within the window.
pub open spec fn arrows_fit(m: DecorMetrics, l: TextLayout) -> bool {
    scrollbars_of(m, l) matches Some(b) ==> {
        &&& b.has_vertical ==> 14 <= b.v_y + b.v_height
        &&& b.has_horizontal ==> 14 <= b.h_x + b.h_width
    }
}

/// How a window is to be drawn.
pub struct WindowStyle {
    pub avail_w: u16,
    pub avail_h: u16,
    pub force: bool,
    pub hover_button: Option<u8>,
    pub hover_scroll: Option<ScrollDirection>,
    pub focused: bool,
}

/// What drawing a window leaves behind.
pub struct Drawn {
    pub frame: Frame,
    /// The limits of scrolling, in rows and columns, if they were found anew.
    pub scroll_limits: Option<(usize, usize)>,
    /// The changes of a graphics buffer were shown.
    pub graphics_shown: bool,
    pub dirty: Option<Region>,
    pub scrollbars: Option<ScrollbarInfo>,
}

pub open spec fn char_width<F: Font>(font: &F) -> int {
    match font.glyph(65) {
        Some(g) => g.width as int,
        None => 8,
    }
}

pub open spec fn first_row(scroll: Option<usize>, limit: int) -> int {
    match scroll {
        Some(r) => lesser(r as int, limit),
        None => limit,
    }
}

pub open spec fn first_col(scroll: Option<usize>, limit: int) -> int {
    match scroll {
        Some(c) => lesser(c as int, limit),
        None => 0,
    }
}

/// The frame with the title bar drawn and the content area black.
pub open spec fn window_cleared<F: Font, D: Decor<F>>(
    frame: Frame, con: Console, font: &F, decor: &D, s: WindowStyle, bpp: int,
) -> Frame {
    let m = decor.spec_metrics();
    let bar = frame.with(
        decor.bar_drawn(
            frame, s.avail_w as int, font, con.title@, s.focused, bpp, s.hover_button,
        ),
    );
    bar.filled(m.content_x as int, m.content_y as int, s.avail_w as int, s.avail_h as int, 0, bpp)
}

/// What drawing a window gives.
#[verifier::opaque]
pub open spec fn window_drawn<F: Font, D: Decor<F>>(
    frame: Frame, con: Console, font: &F, decor: &D, s: WindowStyle, bpp: int,
) -> Drawn {
    let m = decor.spec_metrics();
    let (cx, cy) = (m.content_x as int, m.content_y as int);
    let (w, h) = (s.avail_w as int, s.avail_h as int);
    let cleared = window_cleared(frame, con, font, decor, s, bpp);
    let region = Region {
        x: 0, y: 0, width: (w + m.extra_w) as u16, height: (h + m.extra_h) as u16,
    };
    match con.terminal.graphics_buffer {
        None => if !s.force && !con.dirty {
            // An unchanged text window keeps its pixels.
            Drawn { frame, scroll_limits: None, graphics_shown: false, dirty: None, scrollbars: None }
        } else {
            let l = text_layout(w, h, char_width(font), font.height() as int);
            let max_row = 25 - l.rows;
            let max_col = 80 - l.cols;
            let text = text_rows_drawn(
                cleared, con, font, cx, cy, first_row(con.scroll_row, max_row),
                first_col(con.scroll_col, max_col), l.cols as int, bpp, l.rows as nat,
            );
            let barred = scrollbars_drawn(text, m, l, s.hover_scroll, bpp);
            Drawn {
                frame: barred.with(decor.border_drawn(barred, w, h, s.focused, bpp)),
                scroll_limits: Some((max_row as usize, max_col as usize)),
                graphics_shown: false,
                dirty: Some(region),
                scrollbars: scrollbars_of(m, l),
            }
        },
        Some(g) => if !s.force && !con.dirty && g.dirty.is_none() {
            // Bar and background are drawn, but nothing is reported.
            Drawn {
                frame: cleared, scroll_limits: None, graphics_shown: false, dirty: None,
                scrollbars: None,
            }
        } else {
            let shown = graphics_rows(
                cleared, g, con.terminal.palette@, cx, cy, lesser(g.width as int, w), bpp,
                lesser(g.height as int, h) as nat,
            );
            Drawn {
                frame: shown.with(decor.border_drawn(shown, w, h, s.focused, bpp)),
                scroll_limits: None,
                graphics_shown: true,
                dirty: Some(region),
                scrollbars: None,
            }
        },
    }
}

/// The window lies in the buffer and its coordinates are 16-bit numbers.
pub open spec fn window_fits<F: Font, D: Decor<F>>(
    frame: Frame, con: Console, font: &F, decor: &D, avail_w: int, avail_h: int, bpp: int,
) -> bool {
    let m = decor.spec_metrics();
    &&& avail_w + m.extra_w <= u16::MAX
    &&& avail_h + m.extra_h <= u16::MAX
    &&& frame.fits(0, 0, avail_w + m.extra_w, avail_h + m.extra_h, bpp)
    &&& con.terminal.graphics_buffer.is_none() ==> {
        &&& layout_possible(avail_w, avail_h, char_width(font), font.height() as int)
        &&& frame.fits(
            m.content_x as int, m.content_y as int, at_least_arrow(avail_w),
            at_least_arrow(avail_h), bpp,
        )
    }
}

/// What a drawn window reports: its whole region or nothing, and scrollbars whose
/// arrows lie in the content area.
pub proof fn lemma_drawn_reports<F: Font, D: Decor<F>>(
    frame: Frame, con: Console, font: &F, decor: &D, s: WindowStyle, bpp: int,
)
    requires
        decor.spec_metrics().wf(),
        window_fits(frame, con, font, decor, s.avail_w as int, s.avail_h as int, bpp),
    ensures
        ({
            let m = decor.spec_metrics();
            let d = window_drawn(frame, con, font, decor, s, bpp);
            &&& d.dirty matches Some(r) ==> r == (Region {
                x: 0,
                y: 0,
                width: (s.avail_w + m.extra_w) as u16,
                height: (s.avail_h + m.extra_h) as u16,
            })
            &&& d.scrollbars matches Some(b) ==> {
                &&& con.terminal.graphics_buffer.is_none()
                &&& d.scrollbars == scrollbars_of(
                    m,
                    text_layout(
                        s.avail_w as int, s.avail_h as int, char_width(font), font.height() as int,
                    ),
                )
                &&& b.has_vertical ==> b.v_y == m.content_y && b.v_height <= s.avail_h
                    && b.v_x + 14 == m.content_x + at_least_arrow(s.avail_w as int)
                &&& b.has_horizontal ==> b.h_x == m.content_x && b.h_width <= s.avail_w
                    && b.h_y + 14 == m.content_y + at_least_arrow(s.avail_h as int)
            }
        }),
{
    reveal(window_drawn);
}

fn draw_text_rows<F: Font>(
    fb: &mut Framebuffer, console: &Console, font: &F, x: u16, y: u16, row: usize, col: usize,
    rows: usize, cols: usize, bpp: usize,
)
    requires
        1 <= bpp <= 4,
        console.wf(),
        row + rows <= 25,
        col + cols <= 80,
        y + rows * font.height() <= u16::MAX,
    ensures
        final(fb)@ == text_rows_drawn(
            old(fb)@, *console, font, x as int, y as int, row as int, col as int, cols as int,
            bpp as int, rows as nat,
        ),
        final(fb)@.same_shape(old(fb)@),
{
    let height: u16 = font.get_height() as u16;
    let mut r: usize = 0;
    while r < rows
        invariant
            r <= rows,
            1 <= bpp <= 4,
            console.wf(),
            row + rows <= 25,
            col + cols <= 80,
            height == font.height(),
            y + rows * height <= u16::MAX,
            fb@ == text_rows_drawn(
                old(fb)@, *console, font, x as int, y as int, row as int, col as int, cols as int,
                bpp as int, r as nat,
            ),
            fb@.same_shape(old(fb)@),
        decreases rows - r,
    {
        let mut cells: Vec<(u8, u32, u32)> = Vec::new();
        let mut c: usize = 0;
        while c < cols
            invariant
                c <= cols,
                console.wf(),
                r < rows,
                row + rows <= 25,
                col + cols <= 80,
                cells@ =~= row_cells(*console, row + r, col as int, c as int),
            decreases cols - c,
        {
            let cell: Cell = console.terminal.cells[(row + r) * COLS + col + c];
            let fg: u8 = cell.color & 0x0f;
            let bg: u8 = (cell.color >> 4) & 0x0f;
            proof { lemma_nibbles(cell.color); }
            cells.push(
                (cell.glyph, console.terminal.palette[fg as usize], console.terminal.palette[bg as usize]),
            );
            c += 1;
        }
        assert(r * height <= rows * height) by (nonlinear_arith)
            requires r <= rows, 0 <= height;
        assert(0 <= r * height) by (nonlinear_arith) requires 0 <= r, 0 <= height;
        font.draw_colored_string(fb, x, y + r as u16 * height, cells.as_slice(), bpp);
        r += 1;
    }
}

fn draw_graphics(
    fb: &mut Framebuffer, g: &GraphicsBuffer, palette: &Vec<u32>, x: u16, y: u16, w: usize, h: usize,
    bpp: usize,
)
    requires
        1 <= bpp <= 4,
        g.wf(),
        palette@.len() == 256,
        w <= g.width,
        h <= g.height,
        old(fb)@.fits(x as int, y as int, w as int, h as int, bpp as int),
    ensures
        final(fb)@ == graphics_rows(
            old(fb)@, *g, palette@, x as int, y as int, w as int, bpp as int, h as nat,
        ),
        final(fb)@.same_shape(old(fb)@),
{
    let ghost before = fb@;
    let depth: usize = (g.bits_per_pixel as usize + 7) / 8;
    let stride: usize = fb.stride as usize;
    let mut row: usize = 0;
    while row < h
        invariant
            row <= h,
            1 <= bpp <= 4,
            g.wf(),
            palette@.len() == 256,
            w <= g.width,
            h <= g.height,
            depth == g.bytes_per_pixel(),
            depth <= 32,
            stride == before.stride,
            before.fits(x as int, y as int, w as int, h as int, bpp as int),
            fb@ == graphics_rows(
                before, *g, palette@, x as int, y as int, w as int, bpp as int, row as nat,
            ),
            fb@.same_shape(before),
        decreases h - row,
    {
        if w > 0 && (depth == bpp || depth == 1) {
            proof {
                lemma_sub_block_fits(
                    before, x as int, y as int, w as int, h as int, x as int, y + row, w as int, 1,
                    bpp as int,
                );
                lemma_row_in_buffer(*g, row as int, w as int);
                assert(0 <= (y + row) * stride) by (nonlinear_arith)
                    requires 0 <= y + row, 0 <= stride;
                assert(0 <= x * bpp) by (nonlinear_arith) requires 0 <= x, 0 <= bpp;
                assert(0 <= w * bpp) by (nonlinear_arith) requires 0 <= w, 0 <= bpp;
                assert(0 <= row * g.width) by (nonlinear_arith) requires 0 <= row, 0 <= g.width;
                assert(0 <= row * g.width * depth) by (nonlinear_arith)
                    requires 0 <= row * g.width, 0 <= depth;
                assert(row * g.width <= row * g.width * depth) by (nonlinear_arith)
                    requires 0 <= row * g.width, 1 <= depth;
            }
            let dst_len: usize = fb.pixels.len();
            let src_len: usize = g.pixels.len();
            let at: usize = fb.origin + (y as usize + row) * stride + x as usize * bpp;
            let from: usize = row * g.width as usize * depth;
            if depth == bpp {
                copy_span(fb.pixels.as_mut_slice(), at, g.pixels.as_slice(), from, w * bpp);
            } else {
                let ghost start = fb.pixels@;
                let mut px: usize = 0;
                while px < w
                    invariant
                        px <= w,
                        1 <= bpp <= 4,
                        depth == 1,
                        from + w <= g.pixels@.len(),
                        g.pixels@.len() == src_len,
                        at + w * bpp <= start.len() <= usize::MAX,
                        palette@.len() == 256,
                        fb.pixels@.len() == start.len(),
                        fb@ == before.with(fb.pixels@),
                        fb.pixels@ == palette_row(
                            start, at as int, g.pixels@, from as int, palette@, bpp as int, px as nat,
                        ),
                    decreases w - px,
                {
                    assert((px + 1) * bpp == px * bpp + bpp) by (nonlinear_arith);
                    assert((px + 1) * bpp <= w * bpp) by (nonlinear_arith) requires px + 1 <= w;
                    assert(0 <= px * bpp) by (nonlinear_arith) requires 0 <= px, 0 <= bpp;
                    let color: u32 = palette[g.pixels[from + px] as usize];
                    write_pixel(fb.pixels.as_mut_slice(), at + px * bpp, color, bpp);
                    px += 1;
                }
            }
        } else {
            proof {
                if w == 0 && depth == bpp {
                    let from = row * g.width * depth;
                    let at = before.at(x as int, y + row, bpp as int);
                    assert(w * bpp == 0) by (nonlinear_arith) requires w == 0;
                    lemma_row_in_buffer(*g, row as int, 0);
                    assert(0 <= row * g.width) by (nonlinear_arith) requires 0 <= row, 0 <= g.width;
                    assert(0 <= from) by (nonlinear_arith)
                        requires from == row * g.width * depth, 0 <= row * g.width, 0 <= depth;
                    assert(spliced(fb@.pixels, at, g.pixels@.subrange(from, from + w * bpp)) =~= fb@.pixels);
                }
            }
        }
        row += 1;
    }
}

proof fn lemma_row_in_buffer(g: GraphicsBuffer, row: int, w: int)
    requires
        g.wf(),
        0 <= row < g.height,
        0 <= w <= g.width,
    ensures
        row * g.width * g.bytes_per_pixel() + w * g.bytes_per_pixel() <= g.pixels@.len(),
{
    let d = g.bytes_per_pixel();
    let gw = g.width as int;
    assert(row * gw * d + w * d == (row * gw + w) * d) by (nonlinear_arith);
    assert(row * gw + w <= gw * g.height) by (nonlinear_arith)
        requires 0 <= row, row + 1 <= g.height, 0 <= w <= gw;
    assert((row * gw + w) * d <= gw * g.height * d) by (nonlinear_arith)
        requires row * gw + w <= gw * g.height, 0 <= d;
}

fn draw_scrollbars(
    fb: &mut Framebuffer, m: DecorMetrics, l: &TextLayout, hover: Option<ScrollDirection>, bpp: usize,
    avail_w: u16, avail_h: u16,
) -> (r: Option<ScrollbarInfo>)
    requires
        1 <= bpp <= 4,
        avail_w + m.extra_w <= u16::MAX,
        avail_h + m.extra_h <= u16::MAX,
        m.wf(),
        l.area_w <= avail_w,
        l.area_h <= avail_h,
        l.need_v ==> l.area_w + 14 == at_least_arrow(avail_w as int),
        l.need_h ==> l.area_h + 14 == at_least_arrow(avail_h as int),
        old(fb)@.fits(
            m.content_x as int, m.content_y as int, at_least_arrow(avail_w as int),
            at_least_arrow(avail_h as int), bpp as int,
        ),
    ensures
        final(fb)@ == scrollbars_drawn(old(fb)@, m, *l, hover, bpp as int),
        final(fb)@.same_shape(old(fb)@),
        r == scrollbars_of(m, *l),
{
    if !l.need_v && !l.need_h {
        return None;
    }
    let ghost before = fb@;
    let cx: usize = m.content_x as usize;
    let cy: usize = m.content_y as usize;
    let mut info: ScrollbarInfo = ScrollbarInfo {
        has_vertical: l.need_v,
        has_horizontal: l.need_h,
        v_x: 0,
        v_y: 0,
        v_height: 0,
        h_x: 0,
        h_y: 0,
        h_width: 0,
    };
    let ghost bw = at_least_arrow(avail_w as int);
    let ghost bh = at_least_arrow(avail_h as int);
    if l.need_v {
        proof {
            lemma_sub_block_fits(
                before, cx as int, cy as int, bw, bh, cx + l.area_w, cy as int, 14,
                at_least_arrow(l.area_h as int), bpp as int,
            );
        }
        let v_hover: Option<bool> = match hover {
            Some(ScrollDirection::Up) => Some(true),
            Some(ScrollDirection::Down) => Some(false),
            _ => None,
        };
        draw_vertical(fb, cx + l.area_w, cy, l.area_h, bpp, v_hover);
        info.v_x = (cx + l.area_w) as u16;
        info.v_y = m.content_y;
        info.v_height = l.area_h as u16;
    }
    if l.need_h {
        proof {
            lemma_sub_block_fits(
                before, cx as int, cy as int, bw, bh, cx as int, cy + l.area_h,
                at_least_arrow(l.area_w as int), 14, bpp as int,
            );
        }
        let h_hover: Option<bool> = match hover {
            Some(ScrollDirection::Left) => Some(true),
            Some(ScrollDirection::Right) => Some(false),
            _ => None,
        };
        draw_horizontal(fb, cx, cy + l.area_h, l.area_w, bpp, h_hover);
        info.h_x = m.content_x;
        info.h_y = (cy + l.area_h) as u16;
        info.h_width = l.area_w as u16;
    }
    if l.need_v && l.need_h {
        proof {
            lemma_sub_block_fits(
                before, cx as int, cy as int, bw, bh, cx + l.area_w, cy + l.area_h, 14, 14, bpp as int,
            );
        }
        draw_corner(fb, cx + l.area_w, cy + l.area_h, bpp);
    }
    Some(info)
}

/// The console after a window of it was drawn.
pub open spec fn console_shown(con: Console, d: Drawn) -> Console {
    Console {
        max_scroll_row: match d.scroll_limits { Some(m) => m.0, None => con.max_scroll_row },
        max_scroll_col: match d.scroll_limits { Some(m) => m.1, None => con.max_scroll_col },
        terminal: crate::console::screen::Terminal {
            graphics_buffer: match con.terminal.graphics_buffer {
                Some(g) => Some(
                    GraphicsBuffer { dirty: if d.graphics_shown { None } else { g.dirty }, ..g },
                ),
                None => None,
            },
            ..con.terminal
        },
        ..con
    }
}

impl ConsoleManager {
    /// Draw a console window at the origin of `fb`. Returns the size of its
    /// content, the region to bring to screen, and where its scrollbars are.
    pub fn draw_window<F: Font, D: Decor<F>>(
        console: &mut Console,
        fb: &mut Framebuffer,
        font: &F,
        decor: &D,
        style: &WindowStyle,
        bpp: usize,
    ) -> (r: (u16, u16, Option<Region>, Option<ScrollbarInfo>))
        requires
            1 <= bpp <= 4,
            old(console).wf(),
            window_fits(
                old(fb)@, *old(console), font, decor, style.avail_w as int, style.avail_h as int,
                bpp as int,
            ),
        ensures
            ({
                let d = window_drawn(old(fb)@, *old(console), font, decor, *style, bpp as int);
                &&& final(fb)@ == d.frame
                &&& *final(console) == console_shown(*old(console), d)
                &&& r == (style.avail_w, style.avail_h, d.dirty, d.scrollbars)
            }),
            final(fb)@.same_shape(old(fb)@),
            final(console).wf(),
    {
        proof {
            reveal(window_drawn);
        }
        let avail_w: u16 = style.avail_w;
        let avail_h: u16 = style.avail_h;
        if !style.force && console.terminal.graphics_buffer.is_none() && !console.dirty {
            return (avail_w, avail_h, None, None);
        }
        let ghost before = fb@;
        let ghost con = *console;
        let m: DecorMetrics = decor.metrics();
        proof {
            let (w, h) = (avail_w + m.extra_w, avail_h + m.extra_h);
            lemma_sub_block_fits(before, 0, 0, w, h, 0, 0, w, m.bar_height as int, bpp as int);
            lemma_sub_block_fits(
                before, 0, 0, w, h, m.content_x as int, m.content_y as int, avail_w as int,
                avail_h as int, bpp as int,
            );
        }
        decor.draw_window_bar(
            fb, avail_w, font, console.title.as_slice(), style.focused, bpp, style.hover_button,
        );
        fb.fill(m.content_x as usize, m.content_y as usize, avail_w as usize, avail_h as usize, 0, bpp);
        assert(fb@ == window_cleared(before, con, font, decor, *style, bpp as int));

        let mut sb_info: Option<ScrollbarInfo> = None;
        if console.terminal.graphics_buffer.is_some() {
            let mut g: GraphicsBuffer = match console.terminal.graphics_buffer.take() {
                Some(g) => g,
                None => {
                    return (avail_w, avail_h, None, None);
                }
            };
            if !style.force && !console.dirty && g.dirty.is_none() {
                console.terminal.graphics_buffer = Some(g);
                return (avail_w, avail_h, None, None);
            }
            let w: usize = if g.width <= avail_w { g.width as usize } else { avail_w as usize };
            let h: usize = if g.height <= avail_h { g.height as usize } else { avail_h as usize };
            proof {
                lemma_sub_block_fits(
                    before, m.content_x as int, m.content_y as int, avail_w as int, avail_h as int,
                    m.content_x as int, m.content_y as int, w as int, h as int, bpp as int,
                );
            }
            let ghost cleared = fb@;
            let ghost g0 = con.terminal.graphics_buffer.unwrap();
            draw_graphics(fb, &g, &console.terminal.palette, m.content_x, m.content_y, w, h, bpp);
            g.dirty = None;
            console.terminal.graphics_buffer = Some(g);
        } else {
            let char_h: usize = font.get_height() as usize;
            let char_w: usize = match font.get_glyph(65) {
                Some(g) => g.width as usize,
                None => 8,
            };
            let l: TextLayout = lay_out_text(avail_w as usize, avail_h as usize, char_w, char_h);
            let max_row: usize = ROWS - l.rows;
            let max_col: usize = COLS - l.cols;
            let start_row: usize = match console.scroll_row {
                Some(r) => if r <= max_row { r } else { max_row },
                None => max_row,
            };
            let start_col: usize = match console.scroll_col {
                Some(c) => if c <= max_col { c } else { max_col },
                None => 0,
            };
            if char_h == 0 {
                assert(l.rows * char_h == 0) by (nonlinear_arith) requires char_h == 0;
            }
            draw_text_rows(
                fb, console, font, m.content_x, m.content_y, start_row, start_col, l.rows, l.cols, bpp,
            );
            console.max_scroll_row = max_row;
            console.max_scroll_col = max_col;
            sb_info = draw_scrollbars(fb, m, &l, style.hover_scroll, bpp, avail_w, avail_h);
        }

        decor.draw_window_border(fb, avail_w, avail_h, style.focused, bpp);
        (
            avail_w,
            avail_h,
            Some(Region { x: 0, y: 0, width: avail_w + m.extra_w, height: avail_h + m.extra_h }),
            sb_info,
        )
    }
}

} // verus!
