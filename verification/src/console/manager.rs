//! The console manager: consoles, the handles open on them, and pending reads.
use vstd::prelude::*;

use crate::api::io::{DriverCommand, IoError, IoResult, Message};
use crate::api::termios::{
    GraphicsMode, Termios, TCGETS, TCSETS, TGETPAL, TSETGFX, TSETPAL, TSETTEXT, TSETTITLE,
};
use crate::bits::lesser;
use crate::console::hit::ScrollDirection;
use crate::console::input::{AltAction, KeyAction, KeyLayout, KeyState};
use crate::console::screen::{
    palette_of_rgb, palette_rgb, without_first, Console, GraphicsBuffer, Screen, Term,
};
use crate::console::slots::{inserted, slot, SlotList};

verus! {

/// A read that waits for input: where its bytes go, and how many fit.
#[derive(Clone, Copy, PartialEq, Eq, Structural, Debug)]
pub struct PendingRead {
    pub request_id: u32,
    pub buffer_start: u32,
    pub max_length: usize,
}

/// A pending read with the bytes it receives.
pub struct CompletedRead {
    pub read: PendingRead,
    pub bytes: Vec<u8>,
}

pub struct ConsoleManager {
    pub key_state: KeyState,
    pub current_console: usize,
    pub consoles: Vec<Console>,
    /// The console and the reference count of each open handle. Sharing a handle
    /// counts up, closing counts down, and the number is free at zero.
    pub open_io: SlotList<(usize, u32)>,
    /// The reads waiting on each console, oldest first.
    pub pending_reads: Vec<Vec<PendingRead>>,
}

/// What a console manager is, as a value.
pub struct Manager {
    pub keys: KeyState,
    pub current: usize,
    pub screens: Seq<Screen>,
    pub open: Seq<Option<(usize, u32)>>,
    pub pending: Seq<Seq<PendingRead>>,
}

impl View for ConsoleManager {
    type V = Manager;

    open spec fn view(&self) -> Manager {
        Manager {
            keys: self.key_state,
            current: self.current_console,
            screens: Seq::new(self.consoles@.len(), |i: int| self.consoles@[i]@),
            open: self.open_io@,
            pending: Seq::new(self.pending_reads@.len(), |i: int| self.pending_reads@[i]@),
        }
    }
}

/// A request to the console driver: what it asks for and the memory that its
/// arguments point to.
pub struct Request {
    pub sender: u32,
    pub command: DriverCommand,
    pub id: u32,
    pub args: Seq<u32>,
    pub buffer: Seq<u8>,
}

/// What a request leaves behind: the manager, the reply unless it must wait, and
/// the memory of the request.
pub struct Reply {
    pub manager: Manager,
    pub result: Option<IoResult>,
    pub buffer: Seq<u8>,
}

/// The bytes of a title: at most 40, up to the first zero.
pub open spec fn title_of(bytes: Seq<u8>) -> Seq<u8>
    decreases bytes.len(),
{
    if bytes.len() > 40 {
        title_of(bytes.subrange(0, 40))
    } else {
        until_zero(bytes)
    }
}

pub open spec fn until_zero(bytes: Seq<u8>) -> Seq<u8>
    decreases bytes.len(),
{
    if bytes.len() == 0 || bytes[0] == 0 {
        Seq::empty()
    } else {
        seq![bytes[0]] + until_zero(bytes.drop_first())
    }
}

/// What a control request with a record does: the screen, the reply and the record.
pub open spec fn struct_control(s: Screen, ioctl: u32, rec: Seq<u8>) -> (Screen, IoResult, Seq<u8>) {
    if ioctl == TCSETS {
        if rec.len() == 36 {
            (Screen { term: Term { termios: rec, ..s.term }, ..s }, Ok(1), rec)
        } else {
            (s, Err(IoError::InvalidArgument), rec)
        }
    } else if ioctl == TCGETS {
        if rec.len() == 36 {
            (s, Ok(1), s.term.termios)
        } else {
            (s, Err(IoError::InvalidArgument), rec)
        }
    } else if ioctl == TSETGFX {
        if rec.len() == 12 {
            (
                Screen {
                    term: Term {
                        graphics_request: Some(GraphicsMode::of_record(rec)),
                        ..s.term
                    },
                    dirty: true,
                    ..s
                },
                Ok(1),
                rec,
            )
        } else {
            (s, Err(IoError::InvalidArgument), rec)
        }
    } else if ioctl == TGETPAL {
        if rec.len() < 768 {
            (s, Err(IoError::InvalidArgument), rec)
        } else {
            (s, Ok(1), palette_rgb(s.term.palette) + rec.subrange(768, rec.len() as int))
        }
    } else if ioctl == TSETPAL {
        if rec.len() < 768 {
            (s, Err(IoError::InvalidArgument), rec)
        } else {
            (Screen { term: Term { palette: palette_of_rgb(rec), ..s.term }, ..s }, Ok(1), rec)
        }
    } else if ioctl == TSETTITLE {
        (Screen { title: title_of(rec), dirty: true, ..s }, Ok(1), rec)
    } else {
        (s, Err(IoError::UnsupportedOperation), rec)
    }
}

impl Manager {
    pub open spec fn with_screen(&self, i: int, s: Screen) -> Manager {
        Manager { screens: self.screens.update(i, s), ..*self }
    }

    /// Every open handle names a console and is counted at least once.
    pub open spec fn wf(&self) -> bool {
        &&& self.pending.len() == self.screens.len()
        &&& forall|i: int| 0 <= i < self.open.len() && (#[trigger] self.open[i]).is_some()
            ==> self.open[i].unwrap().0 < self.screens.len() && self.open[i].unwrap().1 >= 1
        &&& forall|i: int| 0 <= i < self.screens.len()
            ==> (#[trigger] self.screens[i]).term.palette.len() == 256
    }

    /// Open: a new handle on the console, whose readers gain the task.
    pub open spec fn open_handle(&self, task: u32, console: int) -> Reply {
        if 0 <= console < self.screens.len() {
            let s = self.screens[console];
            Reply {
                manager: Manager {
                    open: inserted(self.open, (console as usize, 1u32)),
                    ..self.with_screen(console, Screen { readers: s.readers.push(task), ..s })
                },
                result: Some(Ok(crate::console::slots::first_free(self.open) as u32)),
                buffer: Seq::empty(),
            }
        } else {
            Reply { manager: *self, result: Some(Err(IoError::NotFound)), buffer: Seq::empty() }
        }
    }

    /// The readers of a console lose the task.
    pub open spec fn leave(&self, task: u32, console: int) -> Manager {
        let s = self.screens[console];
        self.with_screen(console, Screen { readers: without_first(s.readers, task), ..s })
    }

    /// The readers of a console gain the task.
    pub open spec fn join(&self, task: u32, console: int) -> Manager {
        let s = self.screens[console];
        self.with_screen(console, Screen { readers: s.readers.push(task), ..s })
    }

    /// Close: one reference less; the number is free when none is left.
    pub open spec fn close_handle(&self, task: u32, instance: int) -> (Manager, IoResult) {
        match slot(self.open, instance) {
            Some((console, count)) => (
                Manager {
                    open: self.open.update(
                        instance,
                        if count > 1 { Some((console, (count - 1) as u32)) } else { None },
                    ),
                    ..self.leave(task, console as int)
                },
                Ok(1),
            ),
            None => (*self, Err(IoError::FileHandleInvalid)),
        }
    }

    /// Share: move a handle to another task, or let both have it.
    pub open spec fn share_handle(&self, task: u32, instance: int, dest: u32, is_move: bool) -> (
        Manager,
        IoResult,
    ) {
        match slot(self.open, instance) {
            Some((console, count)) => if is_move {
                (self.leave(task, console as int).join(dest, console as int), Ok(1))
            } else {
                (
                    Manager {
                        open: self.open.update(instance, Some((console, (count + 1) as u32))),
                        ..self.join(dest, console as int)
                    },
                    Ok(1),
                )
            },
            None => (*self, Err(IoError::FileHandleInvalid)),
        }
    }

    /// Read: bytes that are ready, if nobody waits before; otherwise the request waits.
    pub open spec fn read_handle(&self, id: u32, instance: int, start: u32, buf: Seq<u8>) -> Reply {
        match slot(self.open, instance) {
            Some((c, _)) => {
                let console = c as int;
                let s = self.screens[console];
                let n = lesser(s.flushed.len() as int, buf.len() as int);
                if self.pending[console].len() == 0 && n > 0 {
                    Reply {
                        manager: self.with_screen(
                            console,
                            Screen { flushed: s.flushed.subrange(n, s.flushed.len() as int), ..s },
                        ),
                        result: Some(Ok(n as u32)),
                        buffer: s.flushed.subrange(0, n) + buf.subrange(n, buf.len() as int),
                    }
                } else {
                    let wait = PendingRead {
                        request_id: id,
                        buffer_start: start,
                        max_length: buf.len() as usize,
                    };
                    Reply {
                        manager: Manager {
                            pending: self.pending.update(console, self.pending[console].push(wait)),
                            ..*self
                        },
                        result: None,
                        buffer: buf,
                    }
                }
            },
            None => Reply {
                manager: *self,
                result: Some(Err(IoError::FileHandleInvalid)),
                buffer: buf,
            },
        }
    }

    /// Write: the bytes go to the terminal.
    pub open spec fn write_handle(&self, instance: int, buf: Seq<u8>) -> (Manager, IoResult) {
        match slot(self.open, instance) {
            Some((c, _)) => {
                let s = self.screens[c as int];
                (
                    self.with_screen(
                        c as int,
                        Screen {
                            dirty: s.dirty || buf.len() > 0,
                            term: Term { output: s.term.output + buf, ..s.term },
                            ..s
                        },
                    ),
                    Ok(buf.len() as u32),
                )
            },
            None => (*self, Err(IoError::FileHandleInvalid)),
        }
    }

    /// Control without a record: only the return to text mode.
    pub open spec fn control(&self, instance: int, ioctl: u32) -> (Manager, IoResult) {
        match slot(self.open, instance) {
            Some((c, _)) => if ioctl == TSETTEXT {
                let s = self.screens[c as int];
                (
                    self.with_screen(
                        c as int,
                        Screen {
                            term: Term { graphics: None, graphics_request: None, ..s.term },
                            ..s
                        },
                    ),
                    Ok(1),
                )
            } else {
                (*self, Err(IoError::UnsupportedOperation))
            },
            None => (*self, Err(IoError::FileHandleInvalid)),
        }
    }

    /// Control with a record.
    pub open spec fn control_struct(&self, instance: int, ioctl: u32, rec: Seq<u8>) -> Reply {
        match slot(self.open, instance) {
            Some((c, _)) => {
                let (s, result, out) = struct_control(self.screens[c as int], ioctl, rec);
                Reply { manager: self.with_screen(c as int, s), result: Some(result), buffer: out }
            },
            None => Reply {
                manager: *self,
                result: Some(Err(IoError::FileHandleInvalid)),
                buffer: rec,
            },
        }
    }

    /// What the driver does with a request.
    pub open spec fn handled(&self, r: Request) -> Reply {
        match r.command {
            DriverCommand::OpenRaw => Reply {
                buffer: r.buffer,
                ..self.open_handle(r.sender, r.args[0] as int)
            },
            DriverCommand::Close => {
                let (m, result) = self.close_handle(r.sender, r.args[0] as int);
                Reply { manager: m, result: Some(result), buffer: r.buffer }
            },
            DriverCommand::Read => self.read_handle(r.id, r.args[0] as int, r.args[1], r.buffer),
            DriverCommand::Write => {
                let (m, result) = self.write_handle(r.args[0] as int, r.buffer);
                Reply { manager: m, result: Some(result), buffer: r.buffer }
            },
            DriverCommand::Share => {
                let (m, result) = self.share_handle(
                    r.sender, r.args[0] as int, r.args[1], r.args[2] != 0,
                );
                Reply { manager: m, result: Some(result), buffer: r.buffer }
            },
            DriverCommand::Ioctl => if r.args[3] != 0 {
                self.control_struct(r.args[0] as int, r.args[1], r.buffer)
            } else {
                let (m, result) = self.control(r.args[0] as int, r.args[1]);
                Reply { manager: m, result: Some(result), buffer: r.buffer }
            },
            _ => Reply {
                manager: *self,
                result: Some(Err(IoError::UnsupportedOperation)),
                buffer: r.buffer,
            },
        }
    }
}

/// The reads of a queue, each with the bytes it receives, and what is left. Each
/// takes what fits of what is still there, oldest read first.
pub open spec fn served(input: Seq<u8>, queue: Seq<PendingRead>) -> (
    Seq<(PendingRead, Seq<u8>)>,
    Seq<u8>,
)
    decreases queue.len(),
{
    if queue.len() == 0 {
        (Seq::empty(), input)
    } else {
        let n = lesser(input.len() as int, queue[0].max_length as int);
        let (rest, left) = served(input.subrange(n, input.len() as int), queue.drop_first());
        (seq![(queue[0], input.subrange(0, n))] + rest, left)
    }
}

/// The bytes that reads received, one after the other.
pub open spec fn received(reads: Seq<(PendingRead, Seq<u8>)>) -> Seq<u8>
    decreases reads.len(),
{
    if reads.len() == 0 {
        Seq::empty()
    } else {
        reads[0].1 + received(reads.drop_first())
    }
}

/// Serving pending reads loses no input, keeps its order and answers every read.
pub proof fn serving_keeps_all_input(input: Seq<u8>, queue: Seq<PendingRead>)
    ensures
        received(served(input, queue).0) + served(input, queue).1 == input,
        served(input, queue).0.len() == queue.len(),
        forall|i: int| 0 <= i < queue.len() ==> (#[trigger] served(input, queue).0[i]).0 == queue[i],
        forall|i: int| 0 <= i < queue.len() ==>
            (#[trigger] served(input, queue).0[i]).1.len() <= queue[i].max_length,
    decreases queue.len(),
{
    if queue.len() > 0 {
        let n = lesser(input.len() as int, queue[0].max_length as int);
        let tail = input.subrange(n, input.len() as int);
        serving_keeps_all_input(tail, queue.drop_first());
        let (rest, left) = served(tail, queue.drop_first());
        let all = served(input, queue).0;
        assert(all.drop_first() =~= rest);
        assert(received(all) + left =~= input.subrange(0, n) + (received(rest) + left));
        assert(input.subrange(0, n) + tail =~= input);
        assert forall|i: int| 0 <= i < queue.len() implies
            (#[trigger] all[i]).0 == queue[i] && all[i].1.len() <= queue[i].max_length by {
            if i > 0 {
                assert(all[i] == rest[i - 1]);
                assert(queue.drop_first()[i - 1] == queue[i]);
            }
        }
    } else {
        assert(Seq::<u8>::empty() + input =~= input);
    }
}

/// What a key action means to the manager.
#[derive(Clone, Copy, PartialEq, Eq, Structural, Debug)]
pub enum KeyOutcome {
    /// A window shortcut.
    Shortcut(AltAction),
    /// A character for the terminal of the current console.
    Typed(u8),
    /// Nothing but a change of modifiers.
    Nothing,
}

impl Manager {
    pub open spec fn key_outcome(&self, action: KeyAction, layout: &KeyLayout) -> KeyOutcome {
        let alt = match action {
            KeyAction::Press(code) => self.keys.shortcut(code, layout),
            _ => None,
        };
        match alt {
            Some(a) => KeyOutcome::Shortcut(a),
            None => match self.keys.typed(action, layout) {
                Some(c) => KeyOutcome::Typed(c),
                None => KeyOutcome::Nothing,
            },
        }
    }

    /// The manager after a key action: a shortcut changes nothing.
    pub open spec fn after_key(&self, action: KeyAction, layout: &KeyLayout) -> Manager {
        match self.key_outcome(action, layout) {
            KeyOutcome::Shortcut(_) => *self,
            _ => Manager { keys: self.keys.after(action, layout), ..*self },
        }
    }

    /// Input of the current console became ready: if there is any, every read
    /// that waited there is answered.
    pub open spec fn flushed(&self, bytes: Seq<u8>) -> (Manager, Seq<(PendingRead, Seq<u8>)>) {
        let c = self.current as int;
        let s = self.screens[c];
        let input = s.flushed + bytes;
        if input.len() == 0 {
            (*self, Seq::empty())
        } else {
            let (reads, left) = served(input, self.pending[c]);
            (
                Manager {
                    pending: self.pending.update(c, Seq::empty()),
                    ..self.with_screen(c, Screen { flushed: left, ..s })
                },
                reads,
            )
        }
    }

    /// The screen after scrolling by one cell, if it can. A place beyond the limits, which
    /// they may have left behind, counts as the last one.
    pub open spec fn scrolled(s: Screen, direction: ScrollDirection) -> Option<Screen> {
        let row = match s.scroll_row { Some(r) => r, None => s.max_scroll_row };
        let col = match s.scroll_col { Some(c) => c, None => 0 };
        match direction {
            ScrollDirection::Up => {
                let to = lesser(row as int, s.max_scroll_row as int) - 1;
                if to >= 0 {
                    Some(Screen { scroll_row: Some(to as usize), dirty: true, ..s })
                } else if row > 0 {
                    Some(Screen { scroll_row: Some(0), dirty: true, ..s })
                } else {
                    None
                }
            },
            ScrollDirection::Down => match s.scroll_row {
                Some(r) => Some(
                    Screen {
                        scroll_row: if r + 1 >= s.max_scroll_row { None } else { Some((r + 1) as usize) },
                        dirty: true,
                        ..s
                    },
                ),
                None => None,
            },
            ScrollDirection::Left => {
                let to = lesser(col as int, s.max_scroll_col as int) - 1;
                if to >= 0 {
                    Some(Screen { scroll_col: Some(to as usize), dirty: true, ..s })
                } else if col > 0 {
                    Some(Screen { scroll_col: Some(0), dirty: true, ..s })
                } else {
                    None
                }
            },
            ScrollDirection::Right => {
                let to = lesser(col + 1, s.max_scroll_col as int);
                if to != col {
                    Some(Screen { scroll_col: Some(to as usize), dirty: true, ..s })
                } else {
                    None
                }
            },
        }
    }
}

/// Scrolling brings the first visible row or column within its limits, wherever it was, and
/// the place is another than before.
pub proof fn scrolling_stays_in_range(s: Screen, direction: ScrollDirection)
    ensures
        Manager::scrolled(s, direction) matches Some(t) ==> {
            &&& t.max_scroll_row == s.max_scroll_row && t.max_scroll_col == s.max_scroll_col
            &&& if direction == ScrollDirection::Up || direction == ScrollDirection::Down {
                &&& t.scroll_row matches Some(r) ==> r <= t.max_scroll_row
                &&& t.scroll_row != s.scroll_row
                &&& t.scroll_col == s.scroll_col
            } else {
                &&& t.scroll_col matches Some(c) ==> c <= t.max_scroll_col
                &&& t.scroll_col != s.scroll_col
                &&& t.scroll_row == s.scroll_row
            }
        },
{
}

/// Every request keeps handles and consoles consistent: each open handle still
/// names a console and counts at least one reference.
pub proof fn requests_keep_handles_valid(m: Manager, r: Request)
    requires
        m.wf(),
        r.args.len() == 6,
        r.command == DriverCommand::Share && r.args[2] == 0 ==> (
            slot(m.open, r.args[0] as int) matches Some(e) ==> e.1 < u32::MAX),
        r.command == DriverCommand::OpenRaw ==> m.open.len() < u32::MAX,
    ensures
        m.handled(r).manager.wf(),
        m.handled(r).manager.screens.len() == m.screens.len(),
{
    let n = m.handled(r).manager;
    if r.command == DriverCommand::OpenRaw {
        crate::console::slots::lemma_inserted(m.open, (r.args[0] as usize, 1u32));
    }
    assert forall|i: int| 0 <= i < n.open.len() && (#[trigger] n.open[i]).is_some() implies
        n.open[i].unwrap().0 < n.screens.len() && n.open[i].unwrap().1 >= 1 by {
        if i < m.open.len() && m.open[i].is_some() {
            assert(m.open[i].unwrap().0 < m.screens.len());
        }
        if slot(m.open, r.args[0] as int).is_some() {
            assert(m.open[r.args[0] as int].is_some());
        }
    }
}

/// A handle that was opened and then closed by the same task leaves no trace,
/// unless the task was already a reader of the console.
pub proof fn close_undoes_open(m: Manager, task: u32, console: usize)
    requires
        m.wf(),
        0 <= console < m.screens.len(),
        !m.screens[console as int].readers.contains(task),
    ensures
        ({
            let opened = m.open_handle(task, console as int).manager;
            let (closed, result) = opened.close_handle(
                task, crate::console::slots::first_free(m.open),
            );
            &&& result == Ok::<u32, IoError>(1)
            &&& closed.screens == m.screens
            &&& closed.pending == m.pending
            &&& forall|i: int| slot(closed.open, i) == slot(m.open, i)
        }),
{
    let entry = (console, 1u32);
    crate::console::slots::lemma_inserted(m.open, entry);
    let opened = m.open_handle(task, console as int).manager;
    let i = crate::console::slots::first_free(m.open);
    let closed = opened.close_handle(task, i).0;
    crate::console::screen::removing_undoes_adding(m.screens[console as int].readers, task);
    assert(slot(opened.open, i) == Some(entry));
    assert(closed.screens =~= m.screens);
    assert forall|k: int| slot(closed.open, k) == slot(m.open, k) by {
        crate::console::slots::remove_undoes_insert(m.open, entry, k);
    }
}

impl ConsoleManager {
    pub open spec fn wf(&self) -> bool {
        &&& self@.wf()
        &&& forall|i: int| 0 <= i < self.consoles@.len() ==> (#[trigger] self.consoles@[i]).wf()
    }

    /// A manager without consoles.
    pub fn new() -> (r: Self)
        ensures
            r.wf(),
            r@ == (Manager {
                keys: KeyState { ctrl: false, shift: false, alt: false },
                current: 0,
                screens: Seq::empty(),
                open: Seq::empty(),
                pending: Seq::empty(),
            }),
    {
        let r = Self {
            key_state: KeyState::new(),
            current_console: 0,
            consoles: Vec::new(),
            open_io: SlotList::new(),
            pending_reads: Vec::new(),
        };
        assert(r@.screens =~= Seq::empty());
        assert(r@.pending =~= Seq::empty());
        r
    }

    /// Add a blank console; returns its index.
    pub fn add_console(&mut self, palette: Vec<u32>) -> (r: usize)
        requires
            old(self).wf(),
            palette@.len() == 256,
        ensures
            final(self).wf(),
            r == old(self)@.screens.len(),
            final(self)@.screens == old(self)@.screens.push(final(self)@.screens.last()),
            final(self)@.screens.last() == blank_screen(palette@),
            final(self)@.pending == old(self)@.pending.push(Seq::empty()),
            final(self)@.open == old(self)@.open,
            final(self)@.keys == old(self)@.keys,
            final(self)@.current == old(self)@.current,
    {
        let console: Console = Console::new(palette);
        assert(console@.title =~= Seq::empty());
        assert(console@.flushed =~= Seq::empty());
        assert(console@.readers =~= Seq::empty());
        assert(console@.term.output =~= Seq::empty());
        self.consoles.push(console);
        self.pending_reads.push(Vec::new());
        assert(self@.screens =~= old(self)@.screens.push(console@));
        assert(self@.pending =~= old(self)@.pending.push(Seq::empty()));
        self.consoles.len() - 1
    }

    /// Let a task read from a console.
    pub fn attach_reader_task_to_console(&mut self, console_index: usize, task: u32)
        requires
            old(self).wf(),
            console_index < old(self)@.screens.len(),
        ensures
            final(self).wf(),
            final(self)@ == old(self)@.join(task, console_index as int),
    {
        self.consoles[console_index].add_reader_task(task);
        assert(self@.screens =~= old(self)@.join(task, console_index as int).screens);
        assert(self@.pending =~= old(self)@.pending);
    }

    fn detach_reader_task(&mut self, console_index: usize, task: u32)
        requires
            old(self).wf(),
            console_index < old(self)@.screens.len(),
        ensures
            final(self).wf(),
            final(self)@ == old(self)@.leave(task, console_index as int),
    {
        self.consoles[console_index].remove_reader_task(task);
        assert(self@.screens =~= old(self)@.leave(task, console_index as int).screens);
        assert(self@.pending =~= old(self)@.pending);
    }

    /// Serve a request to the console driver. `buffer` is the memory that the
    /// request points to. `None` means that the reply comes later.
    pub fn handle_request(
        &mut self, sender: u32, command: DriverCommand, message: &Message, buffer: &mut Vec<u8>,
    ) -> (r: Option<IoResult>)
        requires
            old(self).wf(),
            command == DriverCommand::Share && message.args@[2] == 0 ==> (
                slot(old(self)@.open, message.args@[0] as int) matches Some(e) ==> e.1 < u32::MAX),
            command == DriverCommand::OpenRaw ==> old(self)@.open.len() < u32::MAX,
            command == DriverCommand::Read || command == DriverCommand::Write ==>
                old(buffer)@.len() == message.args@[2],
            command == DriverCommand::Ioctl && message.args@[3] != 0 ==>
                old(buffer)@.len() == message.args@[3],
        ensures
            final(self).wf(),
            ({
                let reply = old(self)@.handled(
                    Request {
                        sender,
                        command,
                        id: message.unique_id,
                        args: message.args@,
                        buffer: old(buffer)@,
                    },
                );
                &&& final(self)@ == reply.manager
                &&& r == reply.result
                &&& final(buffer)@ == reply.buffer
            }),
    {
        let ghost m = self@;
        match command {
            DriverCommand::OpenRaw => {
                let console_id: usize = message.args[0] as usize;
                if console_id >= self.consoles.len() {
                    return Some(Err(IoError::NotFound));
                }
                self.attach_reader_task_to_console(console_id, sender);
                let ghost mid = self@;
                let handle: usize = self.open_io.insert((console_id, 1));
                assert(self@.screens =~= mid.screens);
                assert(self@.pending =~= mid.pending);
                assert(forall|i: int| 0 <= i < self@.open.len() ==> self@.open[i] == slot(self@.open, i));
                assert(forall|i: int| 0 <= i < m.open.len() ==> m.open[i] == slot(m.open, i));
                Some(Ok(handle as u32))
            }
            DriverCommand::Close => {
                let instance: usize = message.args[0] as usize;
                let (console_id, count): (usize, u32) = match self.open_io.get(instance) {
                    Some(entry) => *entry,
                    None => {
                        return Some(Err(IoError::FileHandleInvalid));
                    }
                };
                assert(m.open[instance as int] == Some((console_id, count)));
                self.detach_reader_task(console_id, sender);
                let ghost mid = self@;
                if count > 1 {
                    self.open_io.slots[instance] = Some((console_id, count - 1));
                } else {
                    let _ = self.open_io.remove(instance);
                }
                assert(self@.screens =~= mid.screens);
                assert(self@.pending =~= mid.pending);
                Some(Ok(1))
            }
            DriverCommand::Read => self.read(message.unique_id, message.args[0], message.args[1], buffer),
            DriverCommand::Write => Some(self.write(message.args[0], buffer)),
            DriverCommand::Share => {
                let instance: usize = message.args[0] as usize;
                let dest: u32 = message.args[1];
                let is_move: bool = message.args[2] != 0;
                let (console_id, count): (usize, u32) = match self.open_io.get(instance) {
                    Some(entry) => *entry,
                    None => {
                        return Some(Err(IoError::FileHandleInvalid));
                    }
                };
                assert(m.open[instance as int] == Some((console_id, count)));
                if is_move {
                    self.detach_reader_task(console_id, sender);
                    self.attach_reader_task_to_console(console_id, dest);
                } else {
                    self.attach_reader_task_to_console(console_id, dest);
                    let ghost mid = self@;
                    self.open_io.slots[instance] = Some((console_id, count + 1));
                    assert(self@.screens =~= mid.screens);
                    assert(self@.pending =~= mid.pending);
                }
                Some(Ok(1))
            }
            DriverCommand::Ioctl => {
                if message.args[3] != 0 {
                    Some(self.ioctl_struct(message.args[0], message.args[1], buffer))
                } else {
                    Some(self.ioctl(message.args[0], message.args[1], message.args[2]))
                }
            }
            _ => Some(Err(IoError::UnsupportedOperation)),
        }
    }

    /// Read from the console of an open handle. Input that is ready is copied at
    /// once; otherwise the request waits until input is flushed. A request that
    /// comes while others wait, waits behind them.
    pub fn read(
        &mut self, request_id: u32, instance: u32, buffer_start: u32, buffer: &mut Vec<u8>,
    ) -> (r: Option<IoResult>)
        requires
            old(self).wf(),
            old(buffer)@.len() <= u32::MAX,
        ensures
            final(self).wf(),
            ({
                let reply = old(self)@.read_handle(
                    request_id, instance as int, buffer_start, old(buffer)@,
                );
                &&& final(self)@ == reply.manager
                &&& r == reply.result
                &&& final(buffer)@ == reply.buffer
            }),
    {
        let ghost m = self@;
        let console_id: usize = match self.open_io.get(instance as usize) {
            Some(entry) => entry.0,
            None => {
                return Some(Err(IoError::FileHandleInvalid));
            }
        };
        assert(m.open[instance as int].unwrap().0 == console_id);
        assert(m.pending[console_id as int] == self.pending_reads@[console_id as int]@);
        let available: usize = self.consoles[console_id].flushed_input.len();
        let to_write: usize = if available <= buffer.len() { available } else { buffer.len() };
        if self.pending_reads[console_id].len() == 0 && to_write > 0 {
            let console: &mut Console = &mut self.consoles[console_id];
            let ghost flushed = console.flushed_input@;
            let rest: Vec<u8> = console.flushed_input.split_off(to_write);
            let mut i: usize = 0;
            while i < to_write
                invariant
                    i <= to_write,
                    to_write <= buffer@.len(),
                    buffer@.len() == old(buffer)@.len(),
                    console.flushed_input@ == flushed.subrange(0, to_write as int),
                    to_write <= flushed.len(),
                    forall|k: int| 0 <= k < i ==> buffer@[k] == flushed[k],
                    forall|k: int| i <= k < buffer@.len() ==> buffer@[k] == old(buffer)@[k],
                decreases to_write - i,
            {
                buffer[i] = console.flushed_input[i];
                i += 1;
            }
            console.flushed_input = rest;
            assert(buffer@ =~= flushed.subrange(0, to_write as int)
                + old(buffer)@.subrange(to_write as int, old(buffer)@.len() as int));
            assert(self@.screens =~= m.read_handle(
                request_id, instance as int, buffer_start, old(buffer)@,
            ).manager.screens);
            assert(self@.pending =~= m.pending);
            return Some(Ok(to_write as u32));
        }
        let pending: PendingRead = PendingRead {
            request_id,
            buffer_start,
            max_length: buffer.len(),
        };
        self.pending_reads[console_id].push(pending);
        assert(self@.pending =~= m.pending.update(
            console_id as int, m.pending[console_id as int].push(pending),
        ));
        assert(self@.screens =~= m.screens);
        None
    }

    /// Write text to the console of an open handle.
    pub fn write(&mut self, instance: u32, buffer: &Vec<u8>) -> (r: IoResult)
        requires
            old(self).wf(),
            buffer@.len() <= u32::MAX,
        ensures
            final(self).wf(),
            (final(self)@, r) == old(self)@.write_handle(instance as int, buffer@),
    {
        let ghost m = self@;
        let console_id: usize = match self.open_io.get(instance as usize) {
            Some(entry) => entry.0,
            None => {
                return Err(IoError::FileHandleInvalid);
            }
        };
        assert(m.open[instance as int].unwrap().0 == console_id);
        let console: &mut Console = &mut self.consoles[console_id];
        if buffer.len() > 0 {
            console.dirty = true;
        }
        let mut i: usize = 0;
        let ghost out = console.terminal.output@;
        let ghost con = *console;
        while i < buffer.len()
            invariant
                i <= buffer@.len(),
                console.terminal.output@ =~= out + buffer@.subrange(0, i as int),
                *console == (Console {
                    terminal: crate::console::screen::Terminal {
                        output: console.terminal.output,
                        ..con.terminal
                    },
                    ..con
                }),
            decreases buffer@.len() - i,
        {
            console.terminal.output.push(buffer[i]);
            i += 1;
        }
        assert(buffer@.subrange(0, buffer@.len() as int) =~= buffer@);
        assert(self@.screens =~= m.write_handle(instance as int, buffer@).0.screens);
        assert(self@.pending =~= m.pending);
        Ok(buffer.len() as u32)
    }

    /// A control request without a record.
    pub fn ioctl(&mut self, instance: u32, ioctl: u32, _arg: u32) -> (r: IoResult)
        requires
            old(self).wf(),
        ensures
            final(self).wf(),
            (final(self)@, r) == old(self)@.control(instance as int, ioctl),
    {
        let ghost m = self@;
        let console_id: usize = match self.open_io.get(instance as usize) {
            Some(entry) => entry.0,
            None => {
                return Err(IoError::FileHandleInvalid);
            }
        };
        assert(m.open[instance as int].unwrap().0 == console_id);
        if ioctl == TSETTEXT {
            let console: &mut Console = &mut self.consoles[console_id];
            console.terminal.graphics_buffer = None;
            console.terminal.graphics_request = None;
            assert(self@.screens =~= m.control(instance as int, ioctl).0.screens);
            assert(self@.pending =~= m.pending);
            Ok(1)
        } else {
            Err(IoError::UnsupportedOperation)
        }
    }

    /// A control request with a record.
    pub fn ioctl_struct(&mut self, instance: u32, ioctl: u32, record: &mut Vec<u8>) -> (r: IoResult)
        requires
            old(self).wf(),
        ensures
            final(self).wf(),
            ({
                let reply = old(self)@.control_struct(instance as int, ioctl, old(record)@);
                &&& final(self)@ == reply.manager
                &&& Some(r) == reply.result
                &&& final(record)@ == reply.buffer
            }),
    {
        let ghost m = self@;
        let console_id: usize = match self.open_io.get(instance as usize) {
            Some(entry) => entry.0,
            None => {
                return Err(IoError::FileHandleInvalid);
            }
        };
        let ghost id = console_id as int;
        assert(m.open[instance as int].unwrap().0 == console_id);
        assert(m.screens.update(id, m.screens[id]) =~= m.screens);
        let console: &mut Console = &mut self.consoles[console_id];
        let r: IoResult = control_console(console, ioctl, record);
        assert(self@.screens =~= m.screens.update(
            id, struct_control(m.screens[id], ioctl, old(record)@).0,
        ));
        assert(self@.pending =~= m.pending);
        r
    }

    /// Follow a key action. The result says whether it is a window shortcut, or
    /// types a character for the current console.
    pub fn handle_key_action(&mut self, action: KeyAction, layout: &KeyLayout) -> (r: KeyOutcome)
        requires
            old(self).wf(),
            layout.wf(),
        ensures
            final(self).wf(),
            final(self)@ == old(self)@.after_key(action, layout),
            r == old(self)@.key_outcome(action, layout),
    {
        if let KeyAction::Press(code) = action {
            if let Some(alt) = self.key_state.check_alt_action(code, layout) {
                return KeyOutcome::Shortcut(alt);
            }
        }
        let mut input: Vec<u8> = vec![0u8, 0u8, 0u8, 0u8];
        let typed: Option<usize> =
            self.key_state.process_key_action(action, input.as_mut_slice(), layout);
        assert(self@.screens =~= old(self)@.screens);
        assert(self@.pending =~= old(self)@.pending);
        match typed {
            Some(_) => KeyOutcome::Typed(input[0]),
            None => KeyOutcome::Nothing,
        }
    }

    /// The terminal of the current console made `bytes` ready. The reads that
    /// waited for input are answered, oldest first.
    pub fn input_flushed(&mut self, bytes: &[u8]) -> (r: Vec<CompletedRead>)
        requires
            old(self).wf(),
            old(self).current_console < old(self)@.screens.len(),
        ensures
            final(self).wf(),
            final(self)@ == old(self)@.flushed(bytes@).0,
            r@.len() == old(self)@.flushed(bytes@).1.len(),
            forall|i: int| 0 <= i < r@.len() ==>
                ((#[trigger] r@[i]).read, r@[i].bytes@) == old(self)@.flushed(bytes@).1[i],
    {
        let ghost m = self@;
        let c: usize = self.current_console;
        let ghost ci = c as int;
        let mut input: Vec<u8> = Vec::new();
        core::mem::swap(&mut input, &mut self.consoles[c].flushed_input);
        let mut i: usize = 0;
        let ghost before = input@;
        while i < bytes.len()
            invariant
                i <= bytes@.len(),
                input@ =~= before + bytes@.subrange(0, i as int),
            decreases bytes@.len() - i,
        {
            input.push(bytes[i]);
            i += 1;
        }
        assert(input@ =~= m.screens[ci].flushed + bytes@);
        let mut queue: Vec<PendingRead> = Vec::new();
        let mut completed: Vec<CompletedRead> = Vec::new();
        if input.len() > 0 {
            core::mem::swap(&mut queue, &mut self.pending_reads[c]);
            let ghost all_input = input@;
            let mut n: usize = 0;
            assert(queue@ == m.pending[ci]);
            assert(queue@.subrange(0, queue@.len() as int) =~= queue@);
            while n < queue.len()
                invariant
                    n <= queue@.len(),
                    completed@.len() == n,
                    ({
                        let (done, left) = served(all_input, queue@);
                        let (rest, left2) =
                            served(input@, queue@.subrange(n as int, queue@.len() as int));
                        &&& left == left2
                        &&& done.len() == n + rest.len()
                        &&& forall|k: int| 0 <= k < n ==>
                            ((#[trigger] completed@[k]).read, completed@[k].bytes@) == done[k]
                        &&& forall|k: int| 0 <= k < rest.len() ==> #[trigger] rest[k] == done[n + k]
                    }),
                decreases queue@.len() - n,
            {
                let read: PendingRead = queue[n];
                let ghost rest_queue = queue@.subrange(n as int, queue@.len() as int);
                let ghost here = input@;
                let ghost (rest, _left) = served(here, rest_queue);
                assert(rest_queue.drop_first() =~= queue@.subrange(n + 1, queue@.len() as int));
                let count: usize =
                    if input.len() <= read.max_length { input.len() } else { read.max_length };
                let left: Vec<u8> = input.split_off(count);
                let ghost (tail, _l) = served(left@, rest_queue.drop_first());
                assert(input@ =~= here.subrange(0, count as int));
                assert(rest == seq![(read, here.subrange(0, count as int))] + tail);
                assert(rest[0] == (read, input@));
                assert forall|k: int| 0 <= k < tail.len() implies #[trigger] tail[k] == rest[k + 1] by {}
                completed.push(CompletedRead { read, bytes: input });
                input = left;
                n += 1;
            }
            queue.clear();
            core::mem::swap(&mut queue, &mut self.pending_reads[c]);
        }
        self.consoles[c].flushed_input = input;
        assert(self@.pending =~= m.flushed(bytes@).0.pending);
        assert(self@.screens =~= m.flushed(bytes@).0.screens);
        completed
    }

    /// Attach a buffer for the graphics mode that a program asked for.
    pub fn attach_graphics(&mut self, console_index: usize, buffer: GraphicsBuffer)
        requires
            old(self).wf(),
            console_index < old(self)@.screens.len(),
            buffer.wf(),
        ensures
            final(self).wf(),
            ({
                let s = old(self)@.screens[console_index as int];
                final(self)@ == old(self)@.with_screen(
                    console_index as int,
                    Screen {
                        term: Term { graphics: Some(buffer), graphics_request: None, ..s.term },
                        ..s
                    },
                )
            }),
    {
        let console: &mut Console = &mut self.consoles[console_index];
        console.terminal.graphics_buffer = Some(buffer);
        console.terminal.graphics_request = None;
        let ghost s = old(self)@.screens[console_index as int];
        assert(self@.screens =~= old(self)@.screens.update(
            console_index as int,
            Screen { term: Term { graphics: Some(buffer), graphics_request: None, ..s.term }, ..s },
        ));
        assert(self@.pending =~= old(self)@.pending);
    }

    /// Scroll a console by one cell; returns whether it moved.
    pub fn scroll_console(&mut self, console_index: usize, direction: ScrollDirection) -> (r: bool)
        requires
            old(self).wf(),
        ensures
            final(self).wf(),
            r == (console_index < old(self)@.screens.len() && Manager::scrolled(
                old(self)@.screens[console_index as int], direction,
            ).is_some()),
            final(self)@ == (if r {
                old(self)@.with_screen(
                    console_index as int,
                    Manager::scrolled(
                        old(self)@.screens[console_index as int], direction,
                    ).unwrap(),
                )
            } else {
                old(self)@
            }),
    {
        if console_index >= self.consoles.len() {
            return false;
        }
        let ghost m = self@;
        let ghost s = m.screens[console_index as int];
        let console: &mut Console = &mut self.consoles[console_index];
        let max_row: usize = console.max_scroll_row;
        let max_col: usize = console.max_scroll_col;
        let row: usize = match console.scroll_row {
            Some(r) => r,
            None => max_row,
        };
        let col: usize = match console.scroll_col {
            Some(c) => c,
            None => 0,
        };
        let mut moved: bool = false;
        match direction {
            ScrollDirection::Up => {
                let current: usize = if row <= max_row { row } else { max_row };
                if row > 0 {
                    console.scroll_row = Some(current.saturating_sub(1));
                    moved = true;
                }
            }
            ScrollDirection::Down => {
                if console.scroll_row.is_some() {
                    console.scroll_row = if row >= max_row || row + 1 >= max_row {
                        None
                    } else {
                        Some(row + 1)
                    };
                    moved = true;
                }
            }
            ScrollDirection::Left => {
                let current: usize = if col <= max_col { col } else { max_col };
                if col > 0 {
                    console.scroll_col = Some(current.saturating_sub(1));
                    moved = true;
                }
            }
            ScrollDirection::Right => {
                let to: usize = if col < max_col { col + 1 } else { max_col };
                if to != col {
                    console.scroll_col = Some(to);
                    moved = true;
                }
            }
        }
        if moved {
            console.dirty = true;
        }
        assert(self@.screens =~= (if moved {
            m.screens.update(console_index as int, Manager::scrolled(s, direction).unwrap())
        } else {
            m.screens
        }));
        assert(self@.pending =~= m.pending);
        moved
    }
}

/// The screen of a console that was just added.
pub open spec fn blank_screen(palette: Seq<u32>) -> Screen {
    Screen {
        title: Seq::empty(),
        dirty: false,
        scroll_row: None,
        scroll_col: None,
        max_scroll_row: 0,
        max_scroll_col: 0,
        flushed: Seq::empty(),
        readers: Seq::empty(),
        term: Term {
            cells: Seq::new(2000, |i: int| crate::console::screen::blank_cell()),
            palette,
            graphics: None,
            termios: Seq::new(36, |i: int| 0u8),
            output: Seq::empty(),
            graphics_request: None,
        },
    }
}

fn control_console(console: &mut Console, ioctl: u32, record: &mut Vec<u8>) -> (r: IoResult)
    requires
        old(console).wf(),
    ensures
        final(console).wf(),
        (final(console)@, r, final(record)@) == struct_control(old(console)@, ioctl, old(record)@),
{
    if ioctl == TCSETS {
        if record.len() != 36 {
            return Err(IoError::InvalidArgument);
        }
        console.terminal.termios = Termios::from_record(record.as_slice());
        Ok(1)
    } else if ioctl == TCGETS {
        if record.len() != 36 {
            return Err(IoError::InvalidArgument);
        }
        console.terminal.termios.write_record(record.as_mut_slice());
        Ok(1)
    } else if ioctl == TSETGFX {
        if record.len() != 12 {
            return Err(IoError::InvalidArgument);
        }
        console.terminal.graphics_request = Some(GraphicsMode::from_record(record.as_slice()));
        console.dirty = true;
        Ok(1)
    } else if ioctl == TGETPAL {
        if record.len() < 768 {
            return Err(IoError::InvalidArgument);
        }
        console.terminal.get_palette_rgb(record);
        Ok(1)
    } else if ioctl == TSETPAL {
        if record.len() < 768 {
            return Err(IoError::InvalidArgument);
        }
        console.terminal.set_palette_rgb(record);
        Ok(1)
    } else if ioctl == TSETTITLE {
        console.title = read_title(record);
        console.dirty = true;
        Ok(1)
    } else {
        Err(IoError::UnsupportedOperation)
    }
}

fn read_title(bytes: &Vec<u8>) -> (title: Vec<u8>)
    ensures
        title@ == title_of(bytes@),
{
    let len: usize = if bytes.len() <= 40 { bytes.len() } else { 40 };
    let mut title: Vec<u8> = Vec::new();
    let mut i: usize = 0;
    let ghost cut = bytes@.subrange(0, len as int);
    assert(cut.subrange(0, len as int) =~= cut);
    assert(bytes@.len() <= 40 ==> cut =~= bytes@);
    while i < len && bytes[i] != 0
        invariant
            i <= len <= bytes@.len(),
            len <= 40,
            cut == bytes@.subrange(0, len as int),
            title@.len() == i,
            title@ + until_zero(cut.subrange(i as int, len as int)) =~= until_zero(cut),
        decreases len - i,
    {
        let ghost rest = cut.subrange(i as int, len as int);
        assert(rest.drop_first() =~= cut.subrange(i + 1, len as int));
        title.push(bytes[i]);
        i += 1;
    }
    assert(until_zero(cut.subrange(i as int, len as int)) =~= Seq::empty());
    assert(title@ =~= until_zero(cut));
    if bytes.len() > 40 {
        assert(title_of(cut) == until_zero(cut));
    }
    title
}

} // verus!
