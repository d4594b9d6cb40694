//! What the pixels of a picture are after it was drawn.
use vstd::prelude::*;

use crate::console::font::{dot, glyph_row, BitmapFont, Font};
use crate::console::graphics::{color_byte, pixel_written, rows_copied, Frame};
use crate::console::screen::{Console, GraphicsBuffer};
use crate::console::window::{graphics_rows, palette_row, row_cells, text_rows_drawn};

verus! {

/// Byte `b` of the pixel at `(x, y)`.
pub open spec fn pixel(f: Frame, x: int, y: int, b: int, bpp: int) -> u8 {
    f.pixels[f.at(x, y, bpp) + b]
}

/// The pixels of a frame lie in its buffer, row after row.
pub open spec fn whole(f: Frame, bpp: int) -> bool {
    &&& bpp == 1 || bpp == 3
    &&& 0 <= f.origin
    &&& f.width * bpp <= f.stride
    &&& f.fits(0, 0, f.width as int, f.height as int, bpp)
}

/// There is a pixel at `(x, y)`, and `b` is one of its bytes.
pub open spec fn on(f: Frame, x: int, y: int, b: int, bpp: int) -> bool {
    0 <= x < f.width && 0 <= y < f.height && 0 <= b < bpp
}

/// Each pixel has its own bytes, and they lie in the buffer.
proof fn lemma_apart(f: Frame, x: int, y: int, u: int, v: int, bpp: int)
    requires
        whole(f, bpp),
        0 <= x < f.width,
        0 <= y < f.height,
        0 <= u < f.width,
        0 <= v < f.height,
    ensures
        0 <= f.at(x, y, bpp),
        f.at(x, y, bpp) + bpp <= f.pixels.len(),
        (x, y) == (u, v) || f.at(x, y, bpp) + bpp <= f.at(u, v, bpp) || f.at(u, v, bpp) + bpp <= f.at(
            x, y, bpp,
        ),
{
    let s = f.stride as int;
    let w = f.width as int;
    assert(0 <= y * s && 0 <= x * bpp) by (nonlinear_arith) requires 0 <= y, 0 <= s, 0 <= x, 0 <= bpp;
    assert(y * s <= (f.height - 1) * s) by (nonlinear_arith) requires y <= f.height - 1, 0 <= s;
    assert(x * bpp + bpp <= w * bpp) by (nonlinear_arith) requires x + 1 <= w, 0 <= bpp;
    assert(u * bpp + bpp <= w * bpp) by (nonlinear_arith) requires u + 1 <= w, 0 <= bpp;
    assert(0 <= u * bpp) by (nonlinear_arith) requires 0 <= u, 0 <= bpp;
    if y < v {
        assert(y * s + s <= v * s) by (nonlinear_arith) requires y + 1 <= v, 0 <= s;
    } else if v < y {
        assert(v * s + s <= y * s) by (nonlinear_arith) requires v + 1 <= y, 0 <= s;
    } else if x < u {
        assert(x * bpp + bpp <= u * bpp) by (nonlinear_arith) requires x + 1 <= u, 0 <= bpp;
    } else if u < x {
        assert(u * bpp + bpp <= x * bpp) by (nonlinear_arith) requires u + 1 <= x, 0 <= bpp;
    }
}

/// A pixel that is written has its colour, byte by byte, and every other byte is as it was.
pub proof fn pixels_hold_their_colour(buf: Seq<u8>, offset: int, color: u32, bpp: int, k: int)
    requires
        bpp == 1 || bpp == 3,
        0 <= offset,
        offset + bpp <= buf.len(),
        0 <= k < buf.len(),
    ensures
        pixel_written(buf, offset, color, bpp).len() == buf.len(),
        pixel_written(buf, offset, color, bpp)[k] == (if offset <= k < offset + bpp {
            color_byte(color, k - offset)
        } else {
            buf[k]
        }),
{
}

proof fn lemma_dot(f: Frame, px: int, py: int, color: u32, bpp: int, x: int, y: int, b: int)
    requires
        whole(f, bpp),
        0 <= px < f.width,
        0 <= py < f.height,
        on(f, x, y, b, bpp),
    ensures
        dot(f, px, py, color, bpp).same_shape(f),
        whole(dot(f, px, py, color, bpp), bpp),
        pixel(dot(f, px, py, color, bpp), x, y, b, bpp) == (if (x, y) == (px, py) {
            color_byte(color, b)
        } else {
            pixel(f, x, y, b, bpp)
        }),
{
    lemma_apart(f, px, py, x, y, bpp);
    lemma_apart(f, x, y, px, py, bpp);
    pixels_hold_their_colour(f.pixels, f.at(px, py, bpp), color, bpp, f.at(x, y, bpp) + b);
}

/// The colour of a point of a glyph's row: that of the letter where the bit is set, the
/// leftmost in the top bit, and that of the background where not.
pub open spec fn shade(bits: u8, c: int, fg: u32, bg: Option<u32>) -> Option<u32> {
    if (bits >> ((7 - c) as u8)) & 1 == 1 { Some(fg) } else { bg }
}

pub open spec fn painted(old: u8, color: Option<u32>, b: int) -> u8 {
    match color {
        Some(c) => color_byte(c, b),
        None => old,
    }
}

proof fn lemma_row(
    f: Frame, px: int, py: int, bits: u8, fg: u32, bg: Option<u32>, bpp: int, n: nat, x: int, y: int,
    b: int,
)
    requires
        whole(f, bpp),
        0 <= px,
        px + n <= f.width,
        0 <= py < f.height,
        on(f, x, y, b, bpp),
    ensures
        glyph_row(f, px, py, bits, fg, bg, bpp, n).same_shape(f),
        whole(glyph_row(f, px, py, bits, fg, bg, bpp, n), bpp),
        pixel(glyph_row(f, px, py, bits, fg, bg, bpp, n), x, y, b, bpp) == (if y == py && px <= x < px
            + n {
            painted(pixel(f, x, y, b, bpp), shade(bits, x - px, fg, bg), b)
        } else {
            pixel(f, x, y, b, bpp)
        }),
    decreases n,
{
    if n > 0 {
        let c = n - 1;
        lemma_row(f, px, py, bits, fg, bg, bpp, (n - 1) as nat, x, y, b);
        let prev = glyph_row(f, px, py, bits, fg, bg, bpp, (n - 1) as nat);
        lemma_dot(prev, px + c, py, fg, bpp, x, y, b);
        if bg.is_some() {
            lemma_dot(prev, px + c, py, bg.unwrap(), bpp, x, y, b);
        }
    }
}

proof fn lemma_glyph(
    font: BitmapFont, f: Frame, px: int, py: int, ch: u8, fg: u32, bg: Option<u32>, bpp: int, n: nat,
    x: int, y: int, b: int,
)
    requires
        whole(f, bpp),
        0 <= px,
        px + font.columns() <= f.width,
        0 <= py,
        py + n <= f.height,
        on(f, x, y, b, bpp),
    ensures
        font.glyph_rows(f, px, py, ch, fg, bg, bpp, n).same_shape(f),
        whole(font.glyph_rows(f, px, py, ch, fg, bg, bpp, n), bpp),
        pixel(font.glyph_rows(f, px, py, ch, fg, bg, bpp, n), x, y, b, bpp) == (if py <= y < py + n
            && px <= x < px + font.columns() {
            painted(pixel(f, x, y, b, bpp), shade(font.bits(ch, y - py), x - px, fg, bg), b)
        } else {
            pixel(f, x, y, b, bpp)
        }),
    decreases n,
{
    if n > 0 {
        lemma_glyph(font, f, px, py, ch, fg, bg, bpp, (n - 1) as nat, x, y, b);
        let prev = font.glyph_rows(f, px, py, ch, fg, bg, bpp, (n - 1) as nat);
        lemma_row(
            prev, px, py + (n - 1), font.bits(ch, n - 1), fg, bg, bpp, font.columns(), x, y, b,
        );
    }
}

proof fn lemma_run(
    font: BitmapFont, f: Frame, left: int, top: int, cells: Seq<(u8, u32, Option<u32>)>, bpp: int,
    n: nat, x: int, y: int, b: int, c: int, gx: int,
)
    requires
        font.wf(),
        whole(f, bpp),
        0 <= left,
        n <= cells.len(),
        left + n * font.width <= f.width,
        0 <= top,
        top + font.height <= f.height,
        on(f, x, y, b, bpp),
        x == left + c * font.width + gx,
        0 <= gx < font.width,
    ensures
        font.run(f, left, top, cells, bpp, n).same_shape(f),
        whole(font.run(f, left, top, cells, bpp, n), bpp),
        pixel(font.run(f, left, top, cells, bpp, n), x, y, b, bpp) == (if top <= y < top + font.height
            && 0 <= c < n {
            painted(
                pixel(f, x, y, b, bpp),
                shade(font.bits(cells[c].0, y - top), gx, cells[c].1, cells[c].2),
                b,
            )
        } else {
            pixel(f, x, y, b, bpp)
        }),
    decreases n,
{
    if n > 0 {
        let w = font.width as int;
        let m = n - 1;
        assert(m * w + w == n * w) by (nonlinear_arith) requires m == n - 1;
        assert(0 <= m * w) by (nonlinear_arith) requires 0 <= m, 0 <= w;
        lemma_run(font, f, left, top, cells, bpp, (n - 1) as nat, x, y, b, c, gx);
        let prev = font.run(f, left, top, cells, bpp, (n - 1) as nat);
        let (ch, fg, bg) = cells[n - 1];
        lemma_glyph(font, prev, left + m * w, top, ch, fg, bg, bpp, font.height as nat, x, y, b);
        if c < m {
            assert(c * w + w <= m * w) by (nonlinear_arith) requires c + 1 <= m, 0 <= w;
        } else if c > m {
            assert(m * w + w <= c * w) by (nonlinear_arith) requires m + 1 <= c, 0 <= w;
        }
    }
}

/// A line of cells drawn in a frame: each point of a cell has the colour of its letter where the
/// letter's glyph has a bit, and that of its background where not. Nothing else changes.
pub proof fn cells_show_their_letters(
    font: BitmapFont, f: Frame, left: int, top: int, cells: Seq<(u8, u32, u32)>, bpp: int, x: int,
    y: int, b: int, c: int, gx: int,
)
    requires
        font.wf(),
        whole(f, bpp),
        0 <= left,
        left + cells.len() * font.width <= f.width,
        0 <= top,
        top + font.height <= f.height,
        on(f, x, y, b, bpp),
        x == left + c * font.width + gx,
        0 <= gx < font.width,
    ensures
        ({
            let g = f.with(font.cells_drawn(f, left, top, cells, bpp));
            &&& g.same_shape(f)
            &&& whole(g, bpp)
            &&& pixel(g, x, y, b, bpp) == (if top <= y < top + font.height && 0 <= c < cells.len() {
                let bits = font.rows@[cells[c].0 * font.height + (y - top)];
                color_byte(
                    if (bits >> ((7 - gx) as u8)) & 1 == 1 { cells[c].1 } else { cells[c].2 }, b,
                )
            } else {
                pixel(f, x, y, b, bpp)
            })
        }),
{
    let all = Seq::new(cells.len(), |i: int| (cells[i].0, cells[i].1, Some(cells[i].2)));
    lemma_run(font, f, left, top, all, bpp, all.len(), x, y, b, c, gx);
    let g = font.run(f, left, top, all, bpp, all.len());
    assert(f.with(font.cells_drawn(f, left, top, cells, bpp)) == g);
    if top <= y < top + font.height && 0 <= c < cells.len() {
        let ch = cells[c].0 as int;
        let h = font.height as int;
        assert(0 <= ch * h) by (nonlinear_arith) requires 0 <= ch, 0 <= h;
        assert(ch * h + h <= 256 * h) by (nonlinear_arith) requires ch + 1 <= 256, 0 <= h;
    }
}

/// A string drawn over a picture: each point of a letter that its glyph has takes the colour,
/// and all others are as they were.
pub proof fn strings_show_their_letters(
    font: BitmapFont, f: Frame, left: int, top: int, text: Seq<u8>, color: u32, bpp: int, x: int,
    y: int, b: int, c: int, gx: int,
)
    requires
        font.wf(),
        whole(f, bpp),
        0 <= left,
        left + text.len() * font.width <= f.width,
        0 <= top,
        top + font.height <= f.height,
        on(f, x, y, b, bpp),
        x == left + c * font.width + gx,
        0 <= gx < font.width,
    ensures
        ({
            let g = f.with(font.text_drawn(f, left, top, text, color, bpp));
            &&& g.same_shape(f)
            &&& pixel(g, x, y, b, bpp) == (if top <= y < top + font.height && 0 <= c < text.len()
                && (font.rows@[text[c] * font.height + (y - top)] >> ((7 - gx) as u8)) & 1 == 1 {
                color_byte(color, b)
            } else {
                pixel(f, x, y, b, bpp)
            })
        }),
{
    let all = Seq::new(text.len(), |i: int| (text[i], color, None::<u32>));
    lemma_run(font, f, left, top, all, bpp, all.len(), x, y, b, c, gx);
    let g = font.run(f, left, top, all, bpp, all.len());
    assert(f.with(font.text_drawn(f, left, top, text, color, bpp)) == g);
    if top <= y < top + font.height && 0 <= c < text.len() {
        let ch = text[c] as int;
        let h = font.height as int;
        assert(0 <= ch * h) by (nonlinear_arith) requires 0 <= ch, 0 <= h;
        assert(ch * h + h <= 256 * h) by (nonlinear_arith) requires ch + 1 <= 256, 0 <= h;
    }
}

/// What a point of a text window shows: the glyph of the cell it lies in, in the colours of that
/// cell.
pub open spec fn console_shade(
    con: Console, font: BitmapFont, row: int, col: int, gx: int, gy: int, b: int,
) -> u8 {
    let cell = con.terminal.cells@[row * 80 + col];
    let bits = font.rows@[cell.glyph * font.height + gy];
    let lit = (bits >> ((7 - gx) as u8)) & 1 == 1;
    color_byte(
        con.terminal.palette@[if lit { cell.color as int % 16 } else { cell.color as int / 16 }], b,
    )
}

/// A text window shows the console: line `r` and column `c` of the window show the cell that
/// many lines below and columns right of the first that is visible, point by point. Points
/// beside the text are as they were.
pub proof fn windows_show_the_console(
    f: Frame, con: Console, font: BitmapFont, left: int, top: int, row: int, col: int, rows: nat,
    cols: int, bpp: int, r: int, c: int, gx: int, gy: int, b: int,
)
    requires
        font.wf(),
        whole(f, bpp),
        0 <= left,
        0 <= cols,
        left + cols * font.width <= f.width,
        0 <= top,
        top + rows * font.height <= f.height,
        0 <= gx < font.width,
        0 <= gy < font.height,
        on(f, left + c * font.width + gx, top + r * font.height + gy, b, bpp),
    ensures
        ({
            let g = text_rows_drawn(f, con, &font, left, top, row, col, cols, bpp, rows);
            let x = left + c * font.width + gx;
            let y = top + r * font.height + gy;
            &&& g.same_shape(f)
            &&& whole(g, bpp)
            &&& pixel(g, x, y, b, bpp) == (if 0 <= r < rows && 0 <= c < cols {
                console_shade(con, font, row + r, col + c, gx, gy, b)
            } else {
                pixel(f, x, y, b, bpp)
            })
        }),
    decreases rows,
{
    if rows > 0 {
        let h = font.height as int;
        let m = rows - 1;
        let x = left + c * font.width + gx;
        let y = top + r * h + gy;
        assert(m * h + h == rows * h) by (nonlinear_arith) requires m == rows - 1;
        assert(0 <= m * h) by (nonlinear_arith) requires 0 <= m, 0 <= h;
        windows_show_the_console(
            f, con, font, left, top, row, col, (rows - 1) as nat, cols, bpp, r, c, gx, gy, b,
        );
        let prev = text_rows_drawn(
            f, con, &font, left, top, row, col, cols, bpp, (rows - 1) as nat,
        );
        let cells = row_cells(con, row + m, col, cols);
        cells_show_their_letters(font, prev, left, top + m * h, cells, bpp, x, y, b, c, gx);
        if r < m {
            assert(r * h + h <= m * h) by (nonlinear_arith) requires r + 1 <= m, 0 <= h;
        } else if r > m {
            assert(m * h + h <= r * h) by (nonlinear_arith) requires m + 1 <= r, 0 <= h;
        } else if 0 <= c < cols {
            assert((row + m) * 80 + col + c == (row + r) * 80 + (col + c));
        }
    }
}

/// Two consoles whose cells differ at a place give windows that differ there wherever the cells
/// look different.
pub proof fn different_cells_look_different(
    f: Frame, a: Console, z: Console, font: BitmapFont, left: int, top: int, row: int, col: int,
    rows: nat, cols: int, bpp: int, r: int, c: int, gx: int, gy: int, b: int,
)
    requires
        font.wf(),
        whole(f, bpp),
        0 <= left,
        left + cols * font.width <= f.width,
        0 <= top,
        top + rows * font.height <= f.height,
        0 <= gx < font.width,
        0 <= gy < font.height,
        0 <= r < rows,
        0 <= c < cols,
        on(f, left + c * font.width + gx, top + r * font.height + gy, b, bpp),
        console_shade(a, font, row + r, col + c, gx, gy, b) != console_shade(
            z, font, row + r, col + c, gx, gy, b,
        ),
    ensures
        text_rows_drawn(f, a, &font, left, top, row, col, cols, bpp, rows) != text_rows_drawn(
            f, z, &font, left, top, row, col, cols, bpp, rows,
        ),
{
    windows_show_the_console(f, a, font, left, top, row, col, rows, cols, bpp, r, c, gx, gy, b);
    windows_show_the_console(f, z, font, left, top, row, col, rows, cols, bpp, r, c, gx, gy, b);
}

proof fn lemma_palette_row(
    buf: Seq<u8>, at: int, src: Seq<u8>, from: int, palette: Seq<u32>, bpp: int, n: nat, k: int,
    px: int, b: int,
)
    requires
        bpp == 1 || bpp == 3,
        0 <= at,
        at + n * bpp <= buf.len(),
        0 <= k < buf.len(),
        k == at + px * bpp + b,
        0 <= b < bpp,
    ensures
        palette_row(buf, at, src, from, palette, bpp, n).len() == buf.len(),
        palette_row(buf, at, src, from, palette, bpp, n)[k] == (if 0 <= px < n {
            color_byte(palette[src[from + px] as int], b)
        } else {
            buf[k]
        }),
    decreases n,
{
    if n > 0 {
        let m = n - 1;
        assert(m * bpp + bpp == n * bpp) by (nonlinear_arith) requires m == n - 1;
        assert(0 <= m * bpp) by (nonlinear_arith) requires 0 <= m, 0 <= bpp;
        lemma_palette_row(buf, at, src, from, palette, bpp, (n - 1) as nat, k, px, b);
        let prev = palette_row(buf, at, src, from, palette, bpp, (n - 1) as nat);
        pixels_hold_their_colour(
            prev, at + m * bpp, palette[src[from + m] as int], bpp, k,
        );
        if px < m {
            assert(px * bpp + bpp <= m * bpp) by (nonlinear_arith) requires px + 1 <= m, 0 <= bpp;
        } else if px > m {
            assert(m * bpp + bpp <= px * bpp) by (nonlinear_arith) requires m + 1 <= px, 0 <= bpp;
        }
    }
}

/// A graphics window shows its buffer: each point is that of the buffer at the same place, looked
/// up in the palette where the buffer has one byte for each. Points beside it are as they were.
pub proof fn windows_show_their_graphics(
    f: Frame, g: GraphicsBuffer, palette: Seq<u32>, left: int, top: int, w: int, bpp: int, rows: nat,
    x: int, y: int, b: int,
)
    requires
        whole(f, bpp),
        g.bytes_per_pixel() == bpp || g.bytes_per_pixel() == 1,
        0 <= left,
        0 <= w <= g.width,
        left + w <= f.width,
        0 <= top,
        top + rows <= f.height,
        rows <= g.height,
        g.width * g.height * g.bytes_per_pixel() <= g.pixels@.len(),
        on(f, x, y, b, bpp),
    ensures
        ({
            let h = graphics_rows(f, g, palette, left, top, w, bpp, rows);
            let place = (y - top) * g.width + (x - left);
            &&& h.same_shape(f)
            &&& whole(h, bpp)
            &&& pixel(h, x, y, b, bpp) == (if top <= y < top + rows && left <= x < left + w {
                if g.bytes_per_pixel() == bpp {
                    g.pixels@[place * bpp + b]
                } else {
                    color_byte(palette[g.pixels@[place] as int], b)
                }
            } else {
                pixel(f, x, y, b, bpp)
            })
        }),
    decreases rows,
{
    if rows > 0 {
        let m = rows - 1;
        windows_show_their_graphics(
            f, g, palette, left, top, w, bpp, (rows - 1) as nat, x, y, b,
        );
        let prev = graphics_rows(f, g, palette, left, top, w, bpp, (rows - 1) as nat);
        let depth = g.bytes_per_pixel();
        let at = f.at(left, top + m, bpp);
        let from = m * g.width * depth;
        let k = f.at(x, y, bpp) + b;
        lemma_apart(prev, x, y, x, y, bpp);
        if w > 0 {
            lemma_apart(prev, left, top + m, x, y, bpp);
            lemma_apart(prev, left + w - 1, top + m, x, y, bpp);
            assert((left + w - 1) * bpp + bpp == left * bpp + w * bpp) by (nonlinear_arith);
            assert(at + w * bpp <= prev.pixels.len());
        } else {
            assert(w * bpp == 0) by (nonlinear_arith) requires w == 0;
        }
        assert(x * bpp == left * bpp + (x - left) * bpp) by (nonlinear_arith);
        assert(0 <= m * g.width) by (nonlinear_arith) requires 0 <= m, 0 <= g.width;
        assert(0 <= from) by (nonlinear_arith)
            requires from == m * g.width * depth, 0 <= m * g.width, 0 <= depth;
        // The row lies in the buffer of the window.
        assert(m * g.width + w <= g.width * g.height) by (nonlinear_arith)
            requires m + 1 <= g.height, 0 <= w <= g.width, 0 <= m;
        assert(from + w * depth <= g.width * g.height * depth) by (nonlinear_arith)
            requires
                from == m * g.width * depth,
                m * g.width + w <= g.width * g.height,
                0 <= depth;
        if depth == bpp {
            if y == top + m {
                let d = x - left;
                let gw = g.width as int;
                assert(m * gw * bpp + d * bpp == (m * gw + d) * bpp) by (nonlinear_arith);
                if 0 <= d < w {
                    assert(0 <= d * bpp && d * bpp + bpp <= w * bpp) by (nonlinear_arith)
                        requires 0 <= d, d + 1 <= w, 0 <= bpp;
                } else if d < 0 {
                    assert(d * bpp + bpp <= 0) by (nonlinear_arith) requires d + 1 <= 0, 0 <= bpp;
                } else {
                    assert(w * bpp <= d * bpp) by (nonlinear_arith) requires w <= d, 0 <= bpp;
                }
            } else if w > 0 {
                lemma_row_apart(f, left, top + m, w, x, y, bpp);
            }
        } else {
            assert(from == m * g.width) by (nonlinear_arith)
                requires from == m * g.width * depth, depth == 1;
            if y == top + m && w > 0 {
                lemma_palette_row(
                    prev.pixels, at, g.pixels@, from, palette, bpp, w as nat, k, x - left, b,
                );
            } else if w > 0 {
                lemma_row_apart(f, left, top + m, w, x, y, bpp);
                lemma_palette_outside(
                    prev.pixels, at, g.pixels@, from, palette, bpp, w as nat, k,
                );
            }
        }
    }
}

/// A run of points in one row keeps apart from points of other rows.
pub proof fn lemma_row_apart(f: Frame, left: int, v: int, w: int, x: int, y: int, bpp: int)
    requires
        whole(f, bpp),
        0 <= left,
        0 < w,
        left + w <= f.width,
        0 <= v < f.height,
        0 <= x < f.width,
        0 <= y < f.height,
        y != v,
    ensures
        f.at(x, y, bpp) + bpp <= f.at(left, v, bpp) || f.at(left, v, bpp) + w * bpp <= f.at(
            x, y, bpp,
        ),
{
    lemma_apart(f, left, v, x, y, bpp);
    lemma_apart(f, left + w - 1, v, x, y, bpp);
    let s = f.stride as int;
    assert((left + w - 1) * bpp + bpp == left * bpp + w * bpp) by (nonlinear_arith);
    assert((left + w) * bpp <= f.width * bpp) by (nonlinear_arith)
        requires left + w <= f.width, 0 <= bpp;
    assert((left + w) * bpp == left * bpp + w * bpp) by (nonlinear_arith);
    assert(x * bpp + bpp <= f.width * bpp) by (nonlinear_arith) requires x + 1 <= f.width, 0 <= bpp;
    assert(0 <= left * bpp && 0 <= x * bpp) by (nonlinear_arith)
        requires 0 <= left, 0 <= x, 0 <= bpp;
    if y < v {
        assert(y * s + s <= v * s) by (nonlinear_arith) requires y + 1 <= v, 0 <= s;
    } else {
        assert(v * s + s <= y * s) by (nonlinear_arith) requires v + 1 <= y, 0 <= s;
    }
}

proof fn lemma_palette_outside(
    buf: Seq<u8>, at: int, src: Seq<u8>, from: int, palette: Seq<u32>, bpp: int, n: nat, k: int,
)
    requires
        bpp == 1 || bpp == 3,
        0 <= at,
        at + n * bpp <= buf.len(),
        0 <= k < buf.len(),
        k < at || at + n * bpp <= k,
    ensures
        palette_row(buf, at, src, from, palette, bpp, n).len() == buf.len(),
        palette_row(buf, at, src, from, palette, bpp, n)[k] == buf[k],
    decreases n,
{
    if n > 0 {
        let m = n - 1;
        assert(m * bpp + bpp == n * bpp) by (nonlinear_arith) requires m == n - 1;
        assert(0 <= m * bpp) by (nonlinear_arith) requires 0 <= m, 0 <= bpp;
        lemma_palette_outside(buf, at, src, from, palette, bpp, (n - 1) as nat, k);
        pixels_hold_their_colour(
            palette_row(buf, at, src, from, palette, bpp, (n - 1) as nat), at + m * bpp,
            palette[src[from + m] as int], bpp, k,
        );
    }
}

/// A block that is copied is the same in both buffers, row by row, and every byte outside it is
/// as it was.
pub proof fn copied_rows_are_the_same(
    dst: Seq<u8>, dst_start: int, dst_stride: int, src: Seq<u8>, src_start: int, src_stride: int,
    len: int, rows: nat, r: int, i: int,
)
    requires
        0 <= dst_start,
        0 <= len <= dst_stride,
        0 <= src_start,
        0 <= src_stride,
        rows > 0 ==> dst_start + (rows - 1) * dst_stride + len <= dst.len(),
        rows > 0 ==> src_start + (rows - 1) * src_stride + len <= src.len(),
        0 <= i < dst_stride,
        0 <= dst_start + r * dst_stride + i < dst.len(),
    ensures
        ({
            let out = rows_copied(
                dst, dst_start, dst_stride, src, src_start, src_stride, len, rows,
            );
            let k = dst_start + r * dst_stride + i;
            out[k] == (if 0 <= r < rows && i < len {
                src[src_start + r * src_stride + i]
            } else {
                dst[k]
            })
        }),
    decreases rows,
{
    if rows > 0 {
        let m = rows - 1;
        let k = dst_start + r * dst_stride + i;
        assert(0 <= m * dst_stride && 0 <= m * src_stride) by (nonlinear_arith)
            requires 0 <= m, 0 <= dst_stride, 0 <= src_stride;
        if rows > 1 {
            assert((m - 1) * dst_stride <= m * dst_stride) by (nonlinear_arith)
                requires 0 <= dst_stride;
            assert((m - 1) * src_stride <= m * src_stride) by (nonlinear_arith)
                requires 0 <= src_stride;
        }
        copied_rows_are_the_same(
            dst, dst_start, dst_stride, src, src_start, src_stride, len, (rows - 1) as nat, r, i,
        );
        crate::console::graphics::lemma_rows_copied_len(
            dst, dst_start, dst_stride, src, src_start, src_stride, len, (rows - 1) as nat,
        );
        if r < m {
            assert(r * dst_stride + dst_stride <= m * dst_stride) by (nonlinear_arith)
                requires r + 1 <= m, 0 <= dst_stride;
        } else if r > m {
            assert(m * dst_stride + dst_stride <= r * dst_stride) by (nonlinear_arith)
                requires m + 1 <= r, 0 <= dst_stride;
        }
    }
}

} // verus!
