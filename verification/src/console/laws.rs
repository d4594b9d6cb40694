//! What holds of windows, keys, the pointer and the consoles behind them.
use vstd::prelude::*;

use crate::api::io::{DriverCommand, IoError};
use crate::api::termios::{TCGETS, TCSETS, TGETPAL, TSETPAL};
use crate::console::compositor::{
    after_removal, moved_to, order_without, raised, tiled_count, Compositor, Window, WindowMode,
};
use crate::console::decor::DecorMetrics;
use crate::console::hit::ScrollDirection;
use crate::console::input::{key_action, AltAction, KeyAction, KeyLayout, KeyState};
use crate::console::manager::{
    received, served, title_of, until_zero, KeyOutcome, Manager, PendingRead, Request,
};
use crate::console::screen::{palette_round_trip, Screen};
use crate::console::session::pointed;
use crate::console::slots::{first_free, slot};

verus! {

proof fn lemma_without(s: Seq<usize>, idx: usize)
    ensures
        order_without(s, idx) == s.filter(|w: usize| w != idx),
    decreases s.len(),
{
    reveal(Seq::filter);
    if s.len() > 0 {
        lemma_without(s.drop_last(), idx);
    }
}

/// A window that is raised lies on top. The others keep their order.
pub proof fn raised_windows_lie_on_top(order: Seq<usize>, idx: usize)
    ensures
        raised(order, idx) == order.filter(|w: usize| w != idx).push(idx),
{
    lemma_without(order, idx);
}

/// The number of a window after another one was closed.
pub open spec fn number_after(w: int, closed: int) -> int {
    if w > closed { w - 1 } else { w }
}

/// When a window is closed, the others stay, in their order, and what was focused stays focused.
/// Where the focused window itself is closed, the one before it is focused.
pub proof fn closing_keeps_the_other_windows(
    windows: Seq<Window>, order: Seq<usize>, focused: int, idx: int, w: int,
)
    requires
        0 <= idx < windows.len() <= usize::MAX,
        0 <= focused < windows.len(),
        0 <= w < windows.len(),
        w != idx,
        forall|i: int| 0 <= i < order.len() ==> (#[trigger] order[i]) < windows.len(),
    ensures
        ({
            let (left, floats, focus) = after_removal(windows, order, focused, idx);
            &&& left.len() == windows.len() - 1
            &&& left[number_after(w, idx)] == windows[w]
            &&& focused != idx ==> left[focus] == windows[focused]
            &&& focused == idx && idx > 0 ==> left[focus] == windows[idx - 1]
            &&& focused == idx && idx == 0 ==> left[focus] == windows[1]
            &&& floats == order.filter(|o: usize| o != idx as usize).map_values(
                |o: usize| number_after(o as int, idx) as usize,
            )
        }),
{
    lemma_without(order, idx as usize);
    let (left, floats, focus) = after_removal(windows, order, focused, idx);
    let rest = order.filter(|o: usize| o != idx as usize);
    assert(floats =~= rest.map_values(|o: usize| number_after(o as int, idx) as usize));
}

/// A window that can be toggled changes between tiled and floating. One that floats lies on top; one
/// that is tiled floats no more. The other windows stay.
pub proof fn toggled_windows_change_their_mode(c: Compositor, idx: int, w: int)
    requires
        c.can_toggle(idx),
        0 <= w < c.windows@.len(),
    ensures
        ({
            let (windows, order) = c.toggled(idx);
            &&& windows.len() == c.windows@.len()
            &&& w != idx ==> windows[w] == c.windows@[w]
            &&& windows[idx].console_index == c.windows@[idx].console_index
            &&& c.windows@[idx].mode == WindowMode::Tiled ==> windows[idx].mode == WindowMode::Floating
                && order == c.float_order@.push(idx as usize)
            &&& c.windows@[idx].mode == WindowMode::Floating ==> windows[idx].mode == WindowMode::Tiled
                && order == c.float_order@.filter(|o: usize| o != idx as usize)
        }),
{
    lemma_without(c.float_order@, idx as usize);
}

/// A window is tiled while fewer than four are; the next one floats in the middle of the screen.
pub proof fn the_fifth_window_floats(c: Compositor, console: usize)
    requires
        c.wf(),
        c.fb.width >= 640 + c.metrics.extra_w,
        c.fb.height >= 28 + 400 + c.metrics.extra_h,
        c.float_order@.len() == 0,
    ensures
        ({
            let w = c.added(console);
            &&& w.console_index == console
            &&& tiled_count(c.windows@) < 4 ==> w.mode == WindowMode::Tiled
            &&& tiled_count(c.windows@) >= 4 ==> w.mode == WindowMode::Floating && 0 <= c.fb.width - (w.x
                + 640 + c.metrics.extra_w) - w.x <= 1 && 0 <= c.fb.height - (w.y + 400
                + c.metrics.extra_h) - (w.y - 28) <= 1
        }),
{
}

/// A window that is moved stays on the screen, below the bar. It goes where it is told if it fits
/// there, and else as near as it can.
pub proof fn windows_stay_on_the_screen(
    w: Window, x: u16, y: u16, width: int, height: int, m: DecorMetrics,
)
    requires
        w.last_width + m.extra_w <= width <= u16::MAX,
        28 + w.last_height + m.extra_h <= height <= u16::MAX,
    ensures
        ({
            let to = moved_to(w, x, y, width, height, m);
            let ww = w.last_width + m.extra_w;
            let wh = w.last_height + m.extra_h;
            &&& to.x + ww <= width && 28 <= to.y && to.y + wh <= height
            &&& x + ww <= width ==> to.x == x
            &&& x + ww > width ==> to.x + ww == width
            &&& 28 <= y && y + wh <= height ==> to.y == y
            &&& y < 28 ==> to.y == 28
            &&& y + wh > height && y >= 28 ==> to.y + wh == height
            &&& to.console_index == w.console_index && to.mode == w.mode
        }),
{
}

proof fn lemma_head(head: u8)
    by (bit_vector)
    ensures
        (head & 0x01 != 0) == (head % 2 == 1),
        (head & 0x10 != 0) == ((head / 16) % 2 == 1),
        (head & 0x20 != 0) == ((head / 32) % 2 == 1),
{
}

/// The pointer goes as far as the mouse does: to the right by the second byte and up by the third,
/// each with its ninth bit in the first byte, and stops at the edges of the screen.
pub proof fn the_pointer_follows_the_mouse(
    x: int, y: int, width: int, height: int, head: u8, dx: u8, dy: u8,
)
    requires
        0 <= x < width,
        0 <= y < height,
    ensures
        ({
            let (to_x, to_y, down) = pointed(x, y, width, height, head, dx, dy);
            let right = dx - 256 * (head as int / 16 % 2);
            let up = dy - 256 * (head as int / 32 % 2);
            &&& 0 <= to_x < width && 0 <= to_y < height
            &&& 0 <= x + right < width ==> to_x - x == right
            &&& x + right < 0 ==> to_x == 0
            &&& x + right >= width ==> to_x == width - 1
            &&& 0 <= y - up < height ==> y - to_y == up
            &&& y - up < 0 ==> to_y == 0
            &&& y - up >= height ==> to_y == height - 1
            &&& down == (head % 2 == 1)
        }),
{
    lemma_head(head);
}

/// A key gives its character, with shift its other one, and with control a letter gives its number
/// in the alphabet. Modifiers work from their press to their release.
pub proof fn keys_give_their_characters(state: KeyState, code: u8, layout: &KeyLayout)
    requires
        layout.wf(),
        code < 0x60,
        !KeyState::is_modifier(code, layout),
        layout.shift != layout.control,
        layout.shift != layout.alt,
        layout.control != layout.alt,
    ensures
        ({
            let pressed = state.after(KeyAction::Press(layout.shift), layout);
            let released = state.after(KeyAction::Release(layout.shift), layout);
            let held = state.after(KeyAction::Press(layout.control), layout);
            let free = state.after(KeyAction::Release(layout.control), layout);
            let key = KeyAction::Press(code);
            &&& !state.ctrl ==> pressed.typed(key, layout) == Some(layout.characters@[code as int].1)
            &&& !state.ctrl ==> released.typed(key, layout) == Some(layout.characters@[code as int].0)
            &&& 0x41 <= code <= 0x5A ==> held.typed(key, layout) == Some((code - 0x40) as u8)
            &&& free.typed(key, layout) == Some(
                if state.shift {
                    layout.characters@[code as int].1
                } else {
                    layout.characters@[code as int].0
                },
            )
            &&& state.after(key, layout) == state
            &&& state.typed(KeyAction::Release(code), layout) is None
        }),
{
}

/// The shortcuts of windows: each works while the key for them is held, and not else.
pub proof fn shortcuts_are_keys_with_alt(state: KeyState, code: u8, layout: &KeyLayout)
    requires
        layout.q != layout.enter && layout.q != layout.tab && layout.q != layout.space,
        layout.enter != layout.tab && layout.enter != layout.space && layout.tab != layout.space,
        layout.alt != layout.shift && layout.alt != layout.control,
    ensures
        ({
            let held = state.after(KeyAction::Press(layout.alt), layout);
            let free = state.after(KeyAction::Release(layout.alt), layout);
            &&& free.shortcut(code, layout) is None
            &&& held.shortcut(layout.q, layout) == Some(AltAction::CloseWindow)
            &&& held.shortcut(layout.enter, layout) == Some(AltAction::NewTerminal)
            &&& held.shortcut(layout.tab, layout) == Some(AltAction::CycleFocus)
            &&& held.shortcut(layout.space, layout) == Some(AltAction::ToggleFloat)
            &&& held.shortcut(code, layout) is Some ==> code == layout.q || code == layout.enter || code
                == layout.tab || code == layout.space
        }),
{
}

/// The two bytes of a key event say what was done and with which key.
pub proof fn key_events_have_two_bytes(code: u8, other: u8)
    requires
        other != 1,
        other != 2,
    ensures
        key_action(1, code) == Some(KeyAction::Press(code)),
        key_action(2, code) == Some(KeyAction::Release(code)),
        key_action(other, code) is None,
{
}

/// A request for a handle.
pub open spec fn asks(r: Request, command: DriverCommand, handle: int) -> bool {
    r.command == command && r.args.len() == 6 && r.args[0] == handle
}

/// What is written to a handle comes behind what the console has, in full. Other consoles stay.
pub proof fn writes_reach_their_console(m: Manager, r: Request, handle: int, i: int)
    requires
        m.wf(),
        asks(r, DriverCommand::Write, handle),
        slot(m.open, handle) is Some,
        r.buffer.len() <= u32::MAX,
        0 <= i < m.screens.len(),
    ensures
        ({
            let console = slot(m.open, handle).unwrap().0 as int;
            let after = m.handled(r);
            &&& after.manager.screens[console].term.output == m.screens[console].term.output + r.buffer
            &&& after.manager.screens[console].flushed == m.screens[console].flushed
            &&& i != console ==> after.manager.screens[i] == m.screens[i]
            &&& after.result matches Some(Ok(n)) && n == r.buffer.len()
            &&& after.manager.pending == m.pending && after.manager.open == m.open
        }),
{
}

/// A read takes the oldest input first. What does not fit stays for the next read. Where there is no
/// input, or others wait, the read waits behind them, and no input is lost.
pub proof fn reads_take_the_oldest_input(m: Manager, r: Request, handle: int)
    requires
        m.wf(),
        asks(r, DriverCommand::Read, handle),
        slot(m.open, handle) is Some,
        r.buffer.len() <= u32::MAX,
    ensures
        ({
            let console = slot(m.open, handle).unwrap().0 as int;
            let had = m.screens[console].flushed;
            let after = m.handled(r);
            let left = after.manager.screens[console].flushed;
            &&& after.buffer.len() == r.buffer.len()
            &&& after.result matches Some(res) ==> res matches Ok(n) && 0 < n <= r.buffer.len()
                && after.buffer.subrange(0, n as int) + left == had && (left.len() == 0 || n
                == r.buffer.len()) && m.pending[console].len() == 0
            &&& after.result is None ==> left == had && after.manager.pending[console] == m.pending[
                console].push(
                PendingRead {
                    request_id: r.id,
                    buffer_start: r.args[1],
                    max_length: r.buffer.len() as usize,
                },
            )
            &&& after.result is Some == (m.pending[console].len() == 0 && had.len() > 0 && r.buffer.len()
                > 0)
        }),
{
    let console = slot(m.open, handle).unwrap().0 as int;
    let had = m.screens[console].flushed;
    let after = m.handled(r);
    if let Some(Ok(n)) = after.result {
        assert(after.buffer.subrange(0, n as int) + after.manager.screens[console].flushed =~= had);
    }
}

/// Input goes to the console in front. Those who wait get it in their order; the rest is kept, and
/// nothing of it is lost.
pub proof fn input_goes_to_the_console_in_front(m: Manager, bytes: Seq<u8>, i: int)
    requires
        m.wf(),
        m.current < m.screens.len(),
        0 <= i < m.screens.len(),
        bytes.len() > 0,
    ensures
        ({
            let c = m.current as int;
            let (after, reads) = m.flushed(bytes);
            &&& received(reads) + after.screens[c].flushed == m.screens[c].flushed + bytes
            &&& reads.len() == m.pending[c].len()
            &&& forall|k: int| 0 <= k < reads.len() ==> (#[trigger] reads[k]).0 == m.pending[c][k]
            &&& forall|k: int|
                0 <= k < reads.len() ==> (#[trigger] reads[k]).1.len() <= reads[k].0.max_length
            &&& after.pending[c].len() == 0
            &&& i != c ==> after.screens[i] == m.screens[i] && after.pending[i] == m.pending[i]
        }),
{
    let c = m.current as int;
    crate::console::manager::serving_keeps_all_input(m.screens[c].flushed + bytes, m.pending[c]);
}

/// The first who waits gets as much as there is, or as it has room for.
pub proof fn the_first_who_waits_is_served_first(input: Seq<u8>, queue: Seq<PendingRead>)
    requires
        queue.len() > 0,
    ensures
        ({
            let first = served(input, queue).0[0].1;
            &&& first == input.subrange(0, first.len() as int)
            &&& first.len() <= input.len()
            &&& first.len() == input.len() || first.len() == queue[0].max_length
        }),
{
}

/// A handle that was shared is closed when all who have it closed it.
pub proof fn shared_handles_are_closed_twice(m: Manager, handle: int, task: u32, other: u32)
    requires
        m.wf(),
        slot(m.open, handle) is Some,
        slot(m.open, handle).unwrap().1 < u32::MAX,
    ensures
        ({
            let (shared, r) = m.share_handle(task, handle, other, false);
            let (closed, again) = shared.close_handle(other, handle);
            let console = slot(m.open, handle).unwrap().0 as int;
            &&& r is Ok && again is Ok
            &&& shared.screens[console].readers.last() == other
            &&& slot(closed.open, handle) == slot(m.open, handle)
        }),
{
}

/// A handle that is given away stays open, and its console has the other task as its reader.
pub proof fn moved_handles_stay_open(m: Manager, handle: int, task: u32, other: u32)
    requires
        m.wf(),
        slot(m.open, handle) is Some,
    ensures
        ({
            let (after, r) = m.share_handle(task, handle, other, true);
            let console = slot(m.open, handle).unwrap().0 as int;
            &&& r is Ok
            &&& after.open == m.open
            &&& after.screens[console].readers.last() == other
        }),
{
}

/// A handle that is not open is told as such, whatever is asked of it, and nothing changes.
pub proof fn unknown_handles_are_told(m: Manager, r: Request, handle: int)
    requires
        r.args.len() == 6,
        r.args[0] == handle,
        slot(m.open, handle) is None,
        r.command == DriverCommand::Close || r.command == DriverCommand::Read || r.command
            == DriverCommand::Write || r.command == DriverCommand::Share || r.command
            == DriverCommand::Ioctl,
    ensures
        m.handled(r).manager == m,
        m.handled(r).result matches Some(Err(e)) && e == IoError::FileHandleInvalid,
        m.handled(r).buffer == r.buffer,
{
}

/// A console that is opened has a handle that leads to it, and the task among its readers. Other
/// handles stay.
pub proof fn opened_consoles_have_a_handle(m: Manager, r: Request, other: int)
    requires
        m.wf(),
        r.command == DriverCommand::OpenRaw,
        r.args.len() == 6,
        m.open.len() < u32::MAX,
    ensures
        ({
            let after = m.handled(r);
            &&& r.args[0] < m.screens.len() ==> {
                &&& after.result matches Some(Ok(h)) && slot(m.open, h as int) is None && slot(
                    after.manager.open, h as int,
                ) == Some((r.args[0] as usize, 1u32)) && (other != h ==> slot(
                    after.manager.open, other,
                ) == slot(m.open, other))
                &&& after.manager.screens[r.args[0] as int].readers == m.screens[r.args[0] as int]
                    .readers.push(r.sender)
            }
            &&& r.args[0] >= m.screens.len() ==> after.manager == m && (after.result matches Some(
                Err(e),
            ) && e == IoError::NotFound)
        }),
{
    lemma_first_free(m.open);
}

proof fn lemma_first_free<T>(s: Seq<Option<T>>)
    ensures
        0 <= first_free(s) <= s.len(),
        first_free(s) < s.len() ==> s[first_free(s)] is None,
        forall|i: int| 0 <= i < first_free(s) ==> (#[trigger] s[i]) is Some,
    decreases s.len(),
{
    if s.len() > 0 && s[0] is Some {
        lemma_first_free(s.drop_first());
        assert(forall|i: int| 0 <= i < s.len() - 1 ==> #[trigger] s.drop_first()[i] == s[i + 1]);
        assert forall|i: int| 0 <= i < first_free(s) implies (#[trigger] s[i]) is Some by {
            if i > 0 {
                assert(s.drop_first()[i - 1] == s[i]);
            }
        }
    }
}

/// A request for a setting of a console.
pub open spec fn sets(r: Request, handle: int, setting: u32) -> bool {
    asks(r, DriverCommand::Ioctl, handle) && r.args[1] == setting && r.args[3] != 0
}

/// The palette and the terminal settings that a program sets are those that it gets.
pub proof fn settings_are_kept(m: Manager, set: Request, get: Request, handle: int)
    requires
        m.wf(),
        slot(m.open, handle) is Some,
        (sets(set, handle, TSETPAL) && sets(
            get, handle, TGETPAL,
        ) && set.buffer.len() == 768 && get.buffer.len() == 768) || (sets(
            set, handle, TCSETS,
        ) && sets(get, handle, TCGETS) && set.buffer.len() == 36
            && get.buffer.len() == 36),
    ensures
        m.handled(set).result == Some(Ok::<u32, IoError>(1)),
        m.handled(set).manager.handled(get).result == Some(Ok::<u32, IoError>(1)),
        m.handled(set).manager.handled(get).buffer == set.buffer,
        m.handled(set).manager.handled(get).manager == m.handled(set).manager,
{
    let after = m.handled(set).manager;
    let console = slot(m.open, handle).unwrap().0 as int;
    if set.buffer.len() == 768 {
        palette_round_trip(set.buffer);
    }
    assert(after.with_screen(console, after.screens[console]).screens =~= after.screens);
    assert(m.handled(set).manager.handled(get).buffer =~= set.buffer);
}

proof fn lemma_until_zero(t: Seq<u8>, rest: Seq<u8>)
    requires
        forall|i: int| 0 <= i < t.len() ==> #[trigger] t[i] != 0,
        rest.len() == 0 || rest[0] == 0,
    ensures
        until_zero(t + rest) == t,
    decreases t.len(),
{
    let s = t + rest;
    if t.len() == 0 {
        assert(until_zero(s) =~= t);
    } else {
        assert(s.drop_first() =~= t.drop_first() + rest);
        lemma_until_zero(t.drop_first(), rest);
        assert(seq![t[0]] + t.drop_first() =~= t);
    }
}

/// The title of a console is the text up to the first zero, and never longer than forty bytes.
pub proof fn titles_end_at_a_zero(t: Seq<u8>, rest: Seq<u8>)
    requires
        forall|i: int| 0 <= i < t.len() ==> #[trigger] t[i] != 0,
        rest.len() == 0 || rest[0] == 0,
    ensures
        t.len() <= 40 ==> title_of(t + rest) == t,
        t.len() > 40 ==> title_of(t + rest) == t.subrange(0, 40),
{
    let s = t + rest;
    if s.len() > 40 {
        let cut = s.subrange(0, 40);
        reveal_with_fuel(title_of, 2);
        assert(title_of(s) == until_zero(cut));
        if t.len() <= 40 {
            assert(cut =~= t + rest.subrange(0, 40 - t.len()));
            lemma_until_zero(t, rest.subrange(0, 40 - t.len()));
        } else {
            assert(cut =~= t.subrange(0, 40) + Seq::<u8>::empty());
            lemma_until_zero(t.subrange(0, 40), Seq::empty());
        }
    } else {
        lemma_until_zero(t, rest);
        assert(t.subrange(0, t.len() as int) =~= t);
    }
}

/// The row that is shown first: the last one where the console follows its output.
pub open spec fn first_row(s: Screen) -> int {
    match s.scroll_row {
        Some(r) => r as int,
        None => s.max_scroll_row as int,
    }
}

/// The column that is shown first.
pub open spec fn first_col(s: Screen) -> int {
    match s.scroll_col {
        Some(c) => c as int,
        None => 0,
    }
}

/// Scrolling goes by one row or column, to the side that it is told, as far as there is something to
/// show.
pub proof fn scrolling_goes_by_one(s: Screen)
    requires
        first_row(s) <= s.max_scroll_row,
        first_col(s) <= s.max_scroll_col,
    ensures
        first_row(s) > 0 ==> (Manager::scrolled(s, ScrollDirection::Up) matches Some(t) && first_row(t)
            == first_row(s) - 1),
        first_row(s) == 0 ==> Manager::scrolled(s, ScrollDirection::Up) is None,
        first_row(s) < s.max_scroll_row ==> (Manager::scrolled(s, ScrollDirection::Down) matches Some(t)
            && first_row(t) == first_row(s) + 1),
        s.scroll_row is None ==> Manager::scrolled(s, ScrollDirection::Down) is None,
        first_col(s) > 0 ==> (Manager::scrolled(s, ScrollDirection::Left) matches Some(t) && first_col(t)
            == first_col(s) - 1),
        first_col(s) == 0 ==> Manager::scrolled(s, ScrollDirection::Left) is None,
        first_col(s) < s.max_scroll_col ==> (Manager::scrolled(s, ScrollDirection::Right) matches Some(
            t,
        ) && first_col(t) == first_col(s) + 1),
        first_col(s) == s.max_scroll_col ==> Manager::scrolled(s, ScrollDirection::Right) is None,
{
}

/// A key is a shortcut for windows or is typed, never both. What is typed is what the keys give, and
/// modifiers change with every key that is no shortcut.
pub proof fn keys_are_shortcuts_or_typed(m: Manager, action: KeyAction, layout: &KeyLayout)
    ensures
        ({
            let after = m.after_key(action, layout);
            &&& action is Release ==> !(m.key_outcome(action, layout) is Shortcut)
            &&& !m.keys.alt ==> !(m.key_outcome(action, layout) is Shortcut)
            &&& m.key_outcome(action, layout) matches KeyOutcome::Typed(c) ==> m.keys.typed(
                action, layout,
            ) == Some(c)
            &&& m.key_outcome(action, layout) matches KeyOutcome::Shortcut(a) ==> (
                action matches KeyAction::Press(code) && m.keys.shortcut(code, layout) == Some(a))
                && after == m
            &&& !(m.key_outcome(action, layout) is Shortcut) ==> after.keys == m.keys.after(
                action, layout,
            ) && after.screens == m.screens
        }),
{
}

} // verus!
