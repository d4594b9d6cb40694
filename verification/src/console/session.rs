//! What the console task decides each frame: mouse, keyboard, clicks and timing.
use vstd::prelude::*;

use crate::console::graphics::{pixel_written, write_pixel, Frame, Framebuffer};
use crate::console::hit::HitTarget;
use crate::console::input::KeyAction;
use crate::console::manager::ConsoleManager;
use crate::console::topbar::{same_target, TopBarState};
use crate::text::{decimal, push_decimal};

verus! {

/// The mouse: where the pointer is, and the bytes of the packet being received.
#[derive(Clone, Copy, Debug)]
pub struct Mouse {
    pub x: u32,
    pub y: u32,
    pub packet: [u8; 3],
    pub received: usize,
}

/// A signed nine-bit movement: the sign, and the low byte.
pub open spec fn movement(negative: bool, low: u8) -> int {
    if negative { low - 256 } else { low as int }
}

/// A coordinate moved by some pixels and kept on a screen of `size` pixels.
pub open spec fn moved(at: int, by: int, size: int) -> int {
    if at + by < 0 {
        0
    } else if at + by >= size {
        size - 1
    } else {
        at + by
    }
}

/// Where the pointer is, and whether the left button is down, after a report of three bytes.
pub open spec fn pointed(x: int, y: int, width: int, height: int, head: u8, dx: u8, dy: u8) -> (
    int,
    int,
    bool,
) {
    (
        moved(x, movement(head & 0x10 != 0, dx), width),
        moved(y, -movement(head & 0x20 != 0, dy), height),
        head & 0x01 != 0,
    )
}

impl Mouse {
    pub open spec fn wf(&self, width: u16, height: u16) -> bool {
        self.x < width && self.y < height && self.received < 3
    }

    /// In the middle of the screen, with no packet begun.
    pub fn new(width: u16, height: u16) -> (r: Self)
        requires
            0 < width,
            0 < height,
        ensures
            r.wf(width, height),
            r.x == width / 2,
            r.y == height / 2,
            r.packet@ == seq![0u8, 0u8, 0u8],
            r.received == 0,
    {
        let packet: [u8; 3] = [0u8; 3];
        assert(packet@ =~= seq![0u8, 0u8, 0u8]);
        Mouse { x: width as u32 / 2, y: height as u32 / 2, packet, received: 0 }
    }

    /// Take the next byte from the mouse. A first byte without its marker bit is
    /// skipped. The third byte completes a packet, which moves the pointer; the
    /// result is then whether the left button is down.
    pub fn receive(&mut self, byte: u8, width: u16, height: u16) -> (r: Option<bool>)
        requires
            old(self).wf(width, height),
        ensures
            final(self).wf(width, height),
            old(self).received == 0 ==> r.is_none() && final(self).received == (
                if byte & 0x08 == 0 { 0int } else { 1 }),
            old(self).received == 1 ==> r.is_none() && final(self).received == 2,
            old(self).received < 2 ==> final(self).x == old(self).x && final(self).y == old(self).y,
            final(self).packet@ == old(self).packet@.update(old(self).received as int, byte),
            old(self).received == 2 ==> {
                let head = old(self).packet@[0];
                &&& (final(self).x as int, final(self).y as int, r) == {
                    let (x, y, down) = pointed(
                        old(self).x as int, old(self).y as int, width as int, height as int, head,
                        old(self).packet@[1], byte,
                    );
                    (x, y, Some(down))
                }
                &&& r == Some(head & 0x01 != 0)
                &&& final(self).received == 0
                &&& final(self).x == moved(
                    old(self).x as int, movement(head & 0x10 != 0, old(self).packet@[1]), width as int,
                )
                &&& final(self).y == moved(
                    old(self).y as int, -movement(head & 0x20 != 0, byte), height as int,
                )
            },
    {
        self.packet[self.received] = byte;
        self.received += 1;
        if self.received == 1 {
            if byte & 0x08 == 0 {
                self.received = 0;
            }
            None
        } else if self.received == 3 {
            let head: u8 = self.packet[0];
            let dx: i32 =
                if head & 0x10 != 0 { self.packet[1] as i32 - 256 } else { self.packet[1] as i32 };
            let dy: i32 =
                if head & 0x20 != 0 { self.packet[2] as i32 - 256 } else { self.packet[2] as i32 };
            self.x = clamp(self.x as i32 + dx, width);
            self.y = clamp(self.y as i32 - dy, height);
            self.received = 0;
            Some(head & 0x01 != 0)
        } else {
            None
        }
    }
}

fn clamp(at: i32, size: u16) -> (r: u32)
    requires
        0 < size,
    ensures
        r == moved(at as int, 0, size as int),
{
    if at < 0 {
        0
    } else if at >= size as i32 {
        size as u32 - 1
    } else {
        at as u32
    }
}

/// Pairs up the bytes of the keyboard buffer: an action, then a key code. An
/// action byte of zero is skipped.
#[derive(Clone, Copy, PartialEq, Eq, Structural, Debug)]
pub struct KeyPairs {
    pub pending: u8,
}

impl KeyPairs {
    pub fn receive(&mut self, byte: u8) -> (r: Option<KeyAction>)
        ensures
            old(self).pending == 0 ==> r.is_none() && final(self).pending == byte,
            old(self).pending != 0 ==> final(self).pending == 0
                && r == crate::console::input::key_action(old(self).pending, byte),
    {
        if self.pending == 0 {
            self.pending = byte;
            None
        } else {
            let action: u8 = self.pending;
            self.pending = 0;
            KeyAction::from_raw(action, byte)
        }
    }
}

/// The desktop that a press of the left button selects.
pub open spec fn clicked_desktop(down: bool, was_down: bool, hover: Option<HitTarget>) -> Option<u8> {
    match hover {
        Some(HitTarget::DesktopTab(n)) if down && !was_down => Some(n),
        _ => None,
    }
}

/// A click is the moment the button goes down; on a desktop tab it selects it.
pub fn desktop_click(down: bool, was_down: bool, hover: Option<HitTarget>) -> (r: Option<u8>)
    ensures
        r == clicked_desktop(down, was_down, hover),
{
    if down && !was_down {
        match hover {
            Some(HitTarget::DesktopTab(n)) => Some(n),
            _ => None,
        }
    } else {
        None
    }
}

/// How long to wait for an event, in milliseconds. With a graphics console the
/// next frame is due 16 ms after the last; otherwise only an event matters.
pub fn frame_timeout(any_graphics: bool, frame_start: u64, now: u64) -> (r: Option<u32>)
    requires
        frame_start <= now,
    ensures
        r == (if any_graphics {
            Some((if now - frame_start <= 16 { 16 - (now - frame_start) } else { 0 }) as u32)
        } else {
            None
        }),
{
    if any_graphics {
        let elapsed: u64 = now - frame_start;
        Some(16u64.saturating_sub(elapsed) as u32)
    } else {
        None
    }
}

/// The clock is drawn anew every ten seconds.
pub fn clock_due(now: u64, last_update: u64) -> (r: bool)
    requires
        last_update <= now,
    ensures
        r == (now - last_update >= 10_000),
{
    now - last_update >= 10_000
}

/// What the console task keeps from frame to frame.
#[derive(Clone, Copy, Debug)]
pub struct Session {
    pub mouse: Mouse,
    pub keys: KeyPairs,
    /// Where the pointer was in the last frame that was drawn.
    pub shown_x: u32,
    pub shown_y: u32,
    /// What the pointer is over.
    pub hover: Option<HitTarget>,
    /// Whether the left button was down in the last frame.
    pub was_down: bool,
    /// When the clock was last written, in milliseconds.
    pub clock_updated: u64,
}

/// The bar with the pointer over `hit`, and after a click there.
pub open spec fn bar_pointed(
    bar: TopBarState, before: Option<HitTarget>, hit: Option<HitTarget>, down: bool, was_down: bool,
) -> TopBarState {
    TopBarState {
        hover: if hit != before { hit } else { bar.hover },
        active_desktop: match clicked_desktop(down, was_down, hit) {
            Some(n) => n,
            None => bar.active_desktop,
        },
        ..bar
    }
}

impl Session {
    /// The first frame, with the pointer in the middle of the screen.
    pub fn new(width: u16, height: u16, now: u64) -> (r: Self)
        requires
            0 < width,
            0 < height,
        ensures
            r.mouse.wf(width, height),
            r.mouse.x == width / 2,
            r.mouse.y == height / 2,
            r.mouse.packet@ == seq![0u8, 0u8, 0u8],
            r.mouse.received == 0,
            r.keys == (KeyPairs { pending: 0 }),
            r.shown_x == r.mouse.x,
            r.shown_y == r.mouse.y,
            r.hover is None,
            !r.was_down,
            r.clock_updated == now,
    {
        let mouse: Mouse = Mouse::new(width, height);
        Session {
            mouse,
            keys: KeyPairs { pending: 0 },
            shown_x: mouse.x,
            shown_y: mouse.y,
            hover: None,
            was_down: false,
            clock_updated: now,
        }
    }

    /// The pointer is over `hit`, with the left button down or not: the bar shows what is
    /// under the pointer, and a click on a desktop tab selects the desktop.
    pub fn point(&mut self, hit: Option<HitTarget>, down: bool, bar: &mut TopBarState)
        ensures
            *final(bar) == bar_pointed(*old(bar), old(self).hover, hit, down, old(self).was_down),
            *final(self) == (Session { hover: hit, was_down: down, ..*old(self) }),
    {
        if !same_target(&hit, &self.hover) {
            bar.hover = hit;
        }
        if let Some(n) = desktop_click(down, self.was_down, hit) {
            bar.active_desktop = n;
        }
        self.hover = hit;
        self.was_down = down;
    }

    /// Whether the clock is to be written now. It is then up to date.
    pub fn clock_turns(&mut self, now: u64) -> (r: bool)
        requires
            old(self).clock_updated <= now,
        ensures
            r == (now - old(self).clock_updated >= 10_000),
            *final(self) == (Session {
                clock_updated: if r { now } else { old(self).clock_updated },
                ..*old(self)
            }),
    {
        if clock_due(now, self.clock_updated) {
            self.clock_updated = now;
            true
        } else {
            false
        }
    }

    /// Whether the pointer is elsewhere than in the last frame that was drawn.
    pub fn pointer_moved(&self) -> (r: bool)
        ensures
            r == (self.mouse.x != self.shown_x || self.mouse.y != self.shown_y),
    {
        self.mouse.x != self.shown_x || self.mouse.y != self.shown_y
    }

    /// A frame was drawn.
    pub fn frame_drawn(&mut self)
        ensures
            *final(self) == (Session {
                shown_x: old(self).mouse.x,
                shown_y: old(self).mouse.y,
                ..*old(self)
            }),
    {
        self.shown_x = self.mouse.x;
        self.shown_y = self.mouse.y;
    }
}

/// A press of the button selects a desktop once: while it stays down, nothing more is
/// selected.
pub proof fn one_press_selects_once(
    s: Session, bar: TopBarState, hit: Option<HitTarget>, next: Option<HitTarget>,
)
    ensures
        ({
            let first = bar_pointed(bar, s.hover, hit, true, s.was_down);
            bar_pointed(first, hit, next, true, true).active_desktop == first.active_desktop
        }),
{
}

impl ConsoleManager {
    pub open spec fn has_graphics(&self) -> bool {
        exists|i: int| 0 <= i < self.consoles@.len()
            && (#[trigger] self.consoles@[i]).terminal.graphics_buffer.is_some()
    }

    /// Some console has something new to show.
    pub open spec fn has_changes(&self) -> bool {
        exists|i: int| 0 <= i < self.consoles@.len() && ((#[trigger] self.consoles@[i]).dirty
            || (self.consoles@[i].terminal.graphics_buffer matches Some(g) && g.dirty.is_some()))
    }

    /// Whether any console is in graphics mode.
    pub fn any_graphics(&self) -> (r: bool)
        ensures
            r == self.has_graphics(),
    {
        let mut i: usize = 0;
        while i < self.consoles.len()
            invariant
                i <= self.consoles@.len(),
                forall|k: int| 0 <= k < i ==>
                    (#[trigger] self.consoles@[k]).terminal.graphics_buffer.is_none(),
            decreases self.consoles@.len() - i,
        {
            if self.consoles[i].terminal.graphics_buffer.is_some() {
                return true;
            }
            i += 1;
        }
        false
    }

    /// Whether a frame has to be drawn.
    pub fn needs_render(&self, mouse_moved: bool) -> (r: bool)
        ensures
            r == (mouse_moved || self.has_changes()),
    {
        if mouse_moved {
            return true;
        }
        let mut i: usize = 0;
        while i < self.consoles.len()
            invariant
                i <= self.consoles@.len(),
                forall|k: int| 0 <= k < i ==> !(#[trigger] self.consoles@[k]).dirty
                    && (self.consoles@[k].terminal.graphics_buffer matches Some(g) ==> g.dirty.is_none()),
            decreases self.consoles@.len() - i,
        {
            if self.consoles[i].dirty {
                return true;
            }
            if let Some(g) = &self.consoles[i].terminal.graphics_buffer {
                if g.dirty.is_some() {
                    return true;
                }
            }
            i += 1;
        }
        false
    }

    /// All consoles are on screen now.
    pub fn clear_dirty(&mut self)
        requires
            old(self).wf(),
        ensures
            final(self).wf(),
            final(self).consoles@.len() == old(self).consoles@.len(),
            forall|i: int| 0 <= i < old(self).consoles@.len() ==> #[trigger] final(self).consoles@[i]
                == (crate::console::screen::Console { dirty: false, ..old(self).consoles@[i] }),
            *final(self) == (ConsoleManager { consoles: final(self).consoles, ..*old(self) }),
    {
        let mut i: usize = 0;
        while i < self.consoles.len()
            invariant
                i <= self.consoles@.len() == old(self).consoles@.len(),
                forall|k: int| 0 <= k < i ==> #[trigger] self.consoles@[k]
                    == (crate::console::screen::Console { dirty: false, ..old(self).consoles@[k] }),
                forall|k: int| i <= k < self.consoles@.len() ==> #[trigger] self.consoles@[k]
                    == old(self).consoles@[k],
                *self == (ConsoleManager { consoles: self.consoles, ..*old(self) }),
            decreases self.consoles@.len() - i,
        {
            self.consoles[i].dirty = false;
            i += 1;
        }
        assert forall|k: int| 0 <= k < self@.screens.len() implies
            (#[trigger] self@.screens[k]).term.palette.len() == 256 by {
            assert(old(self)@.screens[k].term.palette.len() == 256);
        }
        assert(forall|k: int| 0 <= k < self.consoles@.len() ==> old(self).consoles@[k].wf());
    }
}

/// The device path of a console: "DEV:\CON" and its number, from one.
pub open spec fn console_path(index: nat) -> Seq<u8> {
    seq![68u8, 69u8, 86u8, 58u8, 92u8, 67u8, 79u8, 78u8] + decimal(index + 1)
}

pub fn console_device_path(index: usize) -> (r: Vec<u8>)
    requires
        index < usize::MAX,
    ensures
        r@ == console_path(index as nat),
{
    let mut path: Vec<u8> = vec![68u8, 69u8, 86u8, 58u8, 92u8, 67u8, 79u8, 78u8];
    push_decimal(&mut path, index as u64 + 1);
    assert(path@ =~= console_path(index as nat));
    path
}

/// Bytes per pixel of a video mode, at least one.
pub fn mode_bytes_per_pixel(bits: u8) -> (r: usize)
    ensures
        r == (if bits / 8 == 0 { 1int } else { bits as int / 8 }),
{
    let n: usize = (bits / 8) as usize;
    if n == 0 { 1 } else { n }
}

/// The colour of a pixel of a screen that shows nothing yet: a pattern of black and white.
pub open spec fn pattern_color(row: u16, col: u16) -> u32 {
    if (row ^ col) & 2 == 0 { 0 } else { 0xFFFFFF }
}

/// The first `n` pixels of a row of the pattern, which begins at byte `at`.
pub open spec fn pattern_row(pixels: Seq<u8>, at: int, row: u16, bpp: int, n: nat) -> Seq<u8>
    decreases n,
{
    if n == 0 {
        pixels
    } else {
        pixel_written(
            pattern_row(pixels, at, row, bpp, (n - 1) as nat), at + (n - 1) * bpp,
            pattern_color(row, (n - 1) as u16), bpp,
        )
    }
}

/// The first `n` rows of the pattern.
pub open spec fn pattern_rows(f: Frame, bpp: int, n: nat) -> Seq<u8>
    decreases n,
{
    if n == 0 {
        f.pixels
    } else {
        pattern_row(
            pattern_rows(f, bpp, (n - 1) as nat), f.at(0, n - 1, bpp), (n - 1) as u16, bpp,
            f.width as nat,
        )
    }
}

/// Fill one row with the pattern.
fn fill_pattern_row(pixels: &mut [u8], at: usize, row: u16, width: u16, bpp: usize)
    requires
        1 <= bpp <= 4,
        at + width * bpp <= old(pixels)@.len(),
    ensures
        final(pixels)@ == pattern_row(old(pixels)@, at as int, row, bpp as int, width as nat),
        final(pixels)@.len() == old(pixels)@.len(),
{
    let ghost before = pixels@;
    let capacity: usize = pixels.len();
    let mut col: u16 = 0;
    while col < width
        invariant
            col <= width,
            1 <= bpp <= 4,
            pixels@ == pattern_row(before, at as int, row, bpp as int, col as nat),
            pixels@.len() == before.len() == capacity,
            at + width * bpp <= before.len(),
        decreases width - col,
    {
        let color: u32 = if (row ^ col) & 2 == 0 { 0 } else { 0xFFFFFF };
        assert((col + 1) * bpp == col * bpp + bpp) by (nonlinear_arith);
        assert((col + 1) * bpp <= width * bpp) by (nonlinear_arith)
            requires col + 1 <= width;
        assert(0 <= col * bpp) by (nonlinear_arith) requires 0 <= col, 0 <= bpp;
        write_pixel(pixels, at + col as usize * bpp, color, bpp);
        col += 1;
    }
}

/// Fill a screen with the pattern, before anything is shown on it.
pub fn fill_pattern(fb: &mut Framebuffer, bpp: usize)
    requires
        1 <= bpp <= 4,
        old(fb)@.fits(0, 0, old(fb).width as int, old(fb).height as int, bpp as int),
    ensures
        final(fb)@ == old(fb)@.with(pattern_rows(old(fb)@, bpp as int, old(fb).height as nat)),
        final(fb)@.same_shape(old(fb)@),
{
    let ghost before = fb@;
    let width: u16 = fb.width;
    let height: u16 = fb.height;
    let stride: usize = fb.stride as usize;
    let origin: usize = fb.origin;
    let capacity: usize = fb.pixels.len();
    if width == 0 {
        proof { lemma_pattern_empty(before, bpp as int, height as nat); }
        return;
    }
    let mut row: u16 = 0;
    while row < height
        invariant
            row <= height,
            0 < width,
            1 <= bpp <= 4,
            width == before.width,
            height == before.height,
            stride == before.stride,
            origin == before.origin,
            before.fits(0, 0, width as int, height as int, bpp as int),
            before.pixels.len() == capacity,
            fb@ == before.with(pattern_rows(before, bpp as int, row as nat)),
            fb@.same_shape(before),
        decreases height - row,
    {
        assert(row * stride <= (height - 1) * stride) by (nonlinear_arith)
            requires row <= height - 1, 0 <= stride;
        assert(0 <= row * stride) by (nonlinear_arith) requires 0 <= row, 0 <= stride;
        assert(0 <= width * bpp) by (nonlinear_arith) requires 0 <= width, 0 <= bpp;
        fill_pattern_row(
            fb.pixels.as_mut_slice(), origin + row as usize * stride, row, width, bpp,
        );
        row += 1;
    }
}

/// A screen without columns has no pattern.
proof fn lemma_pattern_empty(f: Frame, bpp: int, n: nat)
    requires
        f.width == 0,
    ensures
        pattern_rows(f, bpp, n) == f.pixels,
    decreases n,
{
    if n > 0 {
        lemma_pattern_empty(f, bpp, (n - 1) as nat);
    }
}

/// Whole pages for the memory of a video mode.
pub fn framebuffer_pages(pitch: u16, height: u16) -> (r: u32)
    ensures
        r == (pitch * height + 0xfff) / 0x1000,
{
    assert(0 <= pitch * height <= 0xffff * 0xffff) by (nonlinear_arith)
        requires 0 <= pitch <= 0xffff, 0 <= height <= 0xffff;
    let bytes: u64 = pitch as u64 * height as u64;
    ((bytes + 0xfff) / 0x1000) as u32
}

} // verus!
