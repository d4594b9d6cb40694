//! Scrollbars of console windows.
//!
//! Scrollbars appear when the window is too small to display all 80 by 25
//! cells. Each is 14 pixels thick, with a 14 by 14 arrow button at each end and
//! an empty track in between. A corner square fills the intersection when both
//! are visible.
use vstd::prelude::*;

use crate::console::graphics::{
    lemma_sub_block_fits, Frame, Framebuffer, SB_ARROW_COLOR, SB_ARROW_HOVER, SB_BG, SB_TRACK,
};

verus! {

pub const SCROLLBAR_SIZE: usize = 14;
pub const ARROW_SIZE: usize = 14;

#[derive(Clone, Copy, PartialEq, Eq, Structural, Debug)]
pub enum ArrowDir {
    Up,
    Down,
    Left,
    Right,
}

/// The first `n` strips of an arrow in a button at `(x, y)`. The strips of a
/// vertical arrow are rows, those of a horizontal arrow are columns; their
/// lengths are 1, 3, 5, 7 and 9 from tip to base.
pub open spec fn triangle(frame: Frame, x: int, y: int, dir: ArrowDir, bpp: int, n: nat) -> Frame
    decreases n,
{
    if n == 0 {
        frame
    } else {
        let i = n - 1;
        let prev = triangle(frame, x, y, dir, bpp, (n - 1) as nat);
        match dir {
            ArrowDir::Up => prev.filled(x + 7 - i, y + 4 + i, 2 * i + 1, 1, SB_ARROW_COLOR, bpp),
            ArrowDir::Down => prev.filled(x + 3 + i, y + 5 + i, 9 - 2 * i, 1, SB_ARROW_COLOR, bpp),
            ArrowDir::Left => prev.filled(x + 4 + i, y + 7 - i, 1, 2 * i + 1, SB_ARROW_COLOR, bpp),
            ArrowDir::Right => prev.filled(x + 5 + i, y + 3 + i, 1, 9 - 2 * i, SB_ARROW_COLOR, bpp),
        }
    }
}

/// A 14 by 14 button with its arrow.
pub open spec fn arrow_button(frame: Frame, x: int, y: int, bpp: int, bg: u32, dir: ArrowDir) -> Frame {
    triangle(frame.filled(x, y, 14, 14, bg, bpp), x, y, dir, bpp, 5)
}

pub open spec fn arrow_bg(hover_arrow: Option<bool>, first: bool) -> u32 {
    if hover_arrow == Some(first) { SB_ARROW_HOVER } else { SB_BG }
}

pub open spec fn vertical_drawn(
    frame: Frame, x: int, y: int, height: int, bpp: int, hover_arrow: Option<bool>,
) -> Frame {
    let track = frame.filled(x, y, 14, height, SB_TRACK, bpp);
    let top = arrow_button(track, x, y, bpp, arrow_bg(hover_arrow, true), ArrowDir::Up);
    if height >= 14 {
        arrow_button(top, x, y + height - 14, bpp, arrow_bg(hover_arrow, false), ArrowDir::Down)
    } else {
        top
    }
}

pub open spec fn horizontal_drawn(
    frame: Frame, x: int, y: int, width: int, bpp: int, hover_arrow: Option<bool>,
) -> Frame {
    let track = frame.filled(x, y, width, 14, SB_TRACK, bpp);
    let left = arrow_button(track, x, y, bpp, arrow_bg(hover_arrow, true), ArrowDir::Left);
    if width >= 14 {
        arrow_button(left, x + width - 14, y, bpp, arrow_bg(hover_arrow, false), ArrowDir::Right)
    } else {
        left
    }
}

pub open spec fn at_least_arrow(n: int) -> int {
    if n >= 14 { n } else { 14 }
}

fn background(hover_arrow: Option<bool>, first: bool) -> (bg: u32)
    ensures
        bg == arrow_bg(hover_arrow, first),
{
    match hover_arrow {
        Some(h) => if h == first { SB_ARROW_HOVER } else { SB_BG },
        None => SB_BG,
    }
}

/// Draw a vertical scrollbar whose top-left corner is `(x, y)`. A hovered arrow
/// is `Some(true)` for the upper, `Some(false)` for the lower one.
pub fn draw_vertical(
    fb: &mut Framebuffer,
    x: usize,
    y: usize,
    height: usize,
    bpp: usize,
    hover_arrow: Option<bool>,
)
    requires
        1 <= bpp <= 4,
        x + 14 <= usize::MAX,
        y + at_least_arrow(height as int) <= usize::MAX,
        old(fb)@.fits(x as int, y as int, 14, at_least_arrow(height as int), bpp as int),
    ensures
        final(fb)@ == vertical_drawn(
            old(fb)@, x as int, y as int, height as int, bpp as int, hover_arrow,
        ),
        final(fb)@.same_shape(old(fb)@),
{
    let ghost before = fb@;
    let ghost full = at_least_arrow(height as int);
    proof {
        lemma_sub_block_fits(
            before, x as int, y as int, 14, full, x as int, y as int, 14, height as int, bpp as int,
        );
        lemma_sub_block_fits(
            before, x as int, y as int, 14, full, x as int, y as int, 14, 14, bpp as int,
        );
    }
    fb.fill(x, y, SCROLLBAR_SIZE, height, SB_TRACK, bpp);
    draw_arrow_button(fb, x, y, bpp, background(hover_arrow, true), ArrowDir::Up);
    if height >= ARROW_SIZE {
        proof {
            lemma_sub_block_fits(
                before, x as int, y as int, 14, full, x as int, y + height - 14, 14, 14, bpp as int,
            );
        }
        let down_y: usize = y + height - ARROW_SIZE;
        draw_arrow_button(fb, x, down_y, bpp, background(hover_arrow, false), ArrowDir::Down);
    }
}

/// Draw a horizontal scrollbar whose top-left corner is `(x, y)`. A hovered
/// arrow is `Some(true)` for the left, `Some(false)` for the right one.
pub fn draw_horizontal(
    fb: &mut Framebuffer,
    x: usize,
    y: usize,
    width: usize,
    bpp: usize,
    hover_arrow: Option<bool>,
)
    requires
        1 <= bpp <= 4,
        x + at_least_arrow(width as int) <= usize::MAX,
        y + 14 <= usize::MAX,
        old(fb)@.fits(x as int, y as int, at_least_arrow(width as int), 14, bpp as int),
    ensures
        final(fb)@ == horizontal_drawn(
            old(fb)@, x as int, y as int, width as int, bpp as int, hover_arrow,
        ),
        final(fb)@.same_shape(old(fb)@),
{
    let ghost before = fb@;
    let ghost full = at_least_arrow(width as int);
    proof {
        lemma_sub_block_fits(
            before, x as int, y as int, full, 14, x as int, y as int, width as int, 14, bpp as int,
        );
        lemma_sub_block_fits(
            before, x as int, y as int, full, 14, x as int, y as int, 14, 14, bpp as int,
        );
    }
    fb.fill(x, y, width, SCROLLBAR_SIZE, SB_TRACK, bpp);
    draw_arrow_button(fb, x, y, bpp, background(hover_arrow, true), ArrowDir::Left);
    if width >= ARROW_SIZE {
        proof {
            lemma_sub_block_fits(
                before, x as int, y as int, full, 14, x + width - 14, y as int, 14, 14, bpp as int,
            );
        }
        let right_x: usize = x + width - ARROW_SIZE;
        draw_arrow_button(fb, right_x, y, bpp, background(hover_arrow, false), ArrowDir::Right);
    }
}

/// Draw the corner square where the two scrollbars meet.
pub fn draw_corner(fb: &mut Framebuffer, x: usize, y: usize, bpp: usize)
    requires
        1 <= bpp <= 4,
        old(fb)@.fits(x as int, y as int, 14, 14, bpp as int),
    ensures
        final(fb)@ == old(fb)@.filled(x as int, y as int, 14, 14, SB_BG, bpp as int),
        final(fb)@.same_shape(old(fb)@),
{
    fb.fill(x, y, SCROLLBAR_SIZE, SCROLLBAR_SIZE, SB_BG, bpp);
}

/// Draw a 14 by 14 arrow button: background, then the triangle.
fn draw_arrow_button(fb: &mut Framebuffer, x: usize, y: usize, bpp: usize, bg: u32, dir: ArrowDir)
    requires
        1 <= bpp <= 4,
        x + 14 <= usize::MAX,
        y + 14 <= usize::MAX,
        old(fb)@.fits(x as int, y as int, 14, 14, bpp as int),
    ensures
        final(fb)@ == arrow_button(old(fb)@, x as int, y as int, bpp as int, bg, dir),
        final(fb)@.same_shape(old(fb)@),
{
    let ghost before = fb@;
    fb.fill(x, y, ARROW_SIZE, ARROW_SIZE, bg, bpp);
    let ghost filled = fb@;
    let mut i: usize = 0;
    while i < 5
        invariant
            i <= 5,
            1 <= bpp <= 4,
            x + 14 <= usize::MAX,
            y + 14 <= usize::MAX,
            filled.fits(x as int, y as int, 14, 14, bpp as int),
            fb@ == triangle(filled, x as int, y as int, dir, bpp as int, i as nat),
            fb@.same_shape(filled),
        decreases 5 - i,
    {
        let (cx, cy, w, h): (usize, usize, usize, usize) = match dir {
            ArrowDir::Up => (x + 7 - i, y + 4 + i, 2 * i + 1, 1),
            ArrowDir::Down => (x + 3 + i, y + 5 + i, 9 - 2 * i, 1),
            ArrowDir::Left => (x + 4 + i, y + 7 - i, 1, 2 * i + 1),
            ArrowDir::Right => (x + 5 + i, y + 3 + i, 1, 9 - 2 * i),
        };
        proof {
            lemma_sub_block_fits(
                filled, x as int, y as int, 14, 14, cx as int, cy as int, w as int, h as int,
                bpp as int,
            );
        }
        fb.fill(cx, cy, w, h, SB_ARROW_COLOR, bpp);
        i += 1;
    }
}

} // verus!
