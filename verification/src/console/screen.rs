//! The state of one console: its text, palette, graphics buffer and input.
use vstd::prelude::*;

use crate::bits::{byte0, byte1, byte2, bytes_round_trip, u32_bytes, u32_from_bytes, u32_of};
use crate::api::termios::{GraphicsMode, Termios};
use crate::bytes::le32_bytes;
use crate::console::graphics::Region;

verus! {

pub const COLS: usize = 80;
pub const ROWS: usize = 25;

/// One character on the text screen. The low half of `color` is the
/// foreground, the high half the background, as palette indices.
#[derive(Clone, Copy, PartialEq, Eq, Structural, Debug)]
pub struct Cell {
    pub glyph: u8,
    pub color: u8,
}

/// Pixels that a program draws to directly.
pub struct GraphicsBuffer {
    pub width: u16,
    pub height: u16,
    pub bits_per_pixel: u8,
    pub pixels: Vec<u8>,
    /// The part the program changed since it was last shown.
    pub dirty: Option<Region>,
}

impl GraphicsBuffer {
    pub open spec fn bytes_per_pixel(&self) -> int {
        (self.bits_per_pixel + 7) / 8
    }

    /// There are pixels for the whole area.
    pub open spec fn wf(&self) -> bool {
        self.width * self.height * self.bytes_per_pixel() <= self.pixels@.len()
    }
}

/// The terminal of a console. Bytes written to it wait in `output` for the
/// terminal emulator.
pub struct Terminal {
    pub cells: Vec<Cell>,
    pub palette: Vec<u32>,
    pub graphics_buffer: Option<GraphicsBuffer>,
    pub termios: Termios,
    pub output: Vec<u8>,
    /// The graphics mode a program asked for, until a buffer is attached.
    pub graphics_request: Option<GraphicsMode>,
}

/// What a terminal is, as a value.
pub struct Term {
    pub cells: Seq<Cell>,
    pub palette: Seq<u32>,
    pub graphics: Option<GraphicsBuffer>,
    /// The attributes, as their record.
    pub termios: Seq<u8>,
    pub output: Seq<u8>,
    pub graphics_request: Option<GraphicsMode>,
}

impl View for Terminal {
    type V = Term;

    open spec fn view(&self) -> Term {
        Term {
            cells: self.cells@,
            palette: self.palette@,
            graphics: self.graphics_buffer,
            termios: self.termios.record(),
            output: self.output@,
            graphics_request: self.graphics_request,
        }
    }
}

impl Terminal {
    pub open spec fn wf(&self) -> bool {
        self.cells@.len() == 2000 && self.palette@.len() == 256
            && (self.graphics_buffer matches Some(g) ==> g.wf())
    }
}

pub struct Console {
    pub title: Vec<u8>,
    pub dirty: bool,
    /// First visible row; `None` follows the output at the bottom.
    pub scroll_row: Option<usize>,
    /// First visible column; `None` is the leftmost.
    pub scroll_col: Option<usize>,
    pub max_scroll_row: usize,
    pub max_scroll_col: usize,
    /// Input that is ready to be read.
    pub flushed_input: Vec<u8>,
    /// The tasks that have the console open.
    pub readers: Vec<u32>,
    pub terminal: Terminal,
}

/// What a console is, as a value.
pub struct Screen {
    pub title: Seq<u8>,
    pub dirty: bool,
    pub scroll_row: Option<usize>,
    pub scroll_col: Option<usize>,
    pub max_scroll_row: usize,
    pub max_scroll_col: usize,
    pub flushed: Seq<u8>,
    pub readers: Seq<u32>,
    pub term: Term,
}

impl View for Console {
    type V = Screen;

    open spec fn view(&self) -> Screen {
        Screen {
            title: self.title@,
            dirty: self.dirty,
            scroll_row: self.scroll_row,
            scroll_col: self.scroll_col,
            max_scroll_row: self.max_scroll_row,
            max_scroll_col: self.max_scroll_col,
            flushed: self.flushed_input@,
            readers: self.readers@,
            term: self.terminal@,
        }
    }
}

/// A palette as packed red, green and blue bytes.
pub open spec fn palette_rgb(palette: Seq<u32>) -> Seq<u8> {
    Seq::new(
        3 * palette.len(),
        |i: int| if i % 3 == 0 {
            byte2(palette[i / 3])
        } else if i % 3 == 1 {
            byte1(palette[i / 3])
        } else {
            byte0(palette[i / 3])
        },
    )
}

/// The palette of 256 colours that packed red, green and blue bytes give.
pub open spec fn palette_of_rgb(bytes: Seq<u8>) -> Seq<u32> {
    Seq::new(256, |i: int| u32_of(bytes[3 * i + 2], bytes[3 * i + 1], bytes[3 * i], 0))
}

/// A palette that was set is read back byte for byte.
pub proof fn palette_round_trip(bytes: Seq<u8>)
    requires
        bytes.len() >= 768,
    ensures
        palette_rgb(palette_of_rgb(bytes)) == bytes.subrange(0, 768),
{
    let p = palette_of_rgb(bytes);
    assert forall|i: int| 0 <= i < 768 implies palette_rgb(p)[i] == bytes[i] by {
        let k = i / 3;
        bytes_round_trip(0, bytes[3 * k + 2], bytes[3 * k + 1], bytes[3 * k], 0);
    }
    assert(palette_rgb(p) =~= bytes.subrange(0, 768));
}

impl Terminal {
    /// Write the palette over the first 768 bytes of `buf`.
    pub fn get_palette_rgb(&self, buf: &mut Vec<u8>)
        requires
            self.palette@.len() == 256,
            old(buf)@.len() >= 768,
        ensures
            final(buf)@ == palette_rgb(self.palette@)
                + old(buf)@.subrange(768, old(buf)@.len() as int),
    {
        let mut i: usize = 0;
        while i < 256
            invariant
                i <= 256,
                self.palette@.len() == 256,
                buf@.len() == old(buf)@.len() >= 768,
                forall|k: int| 0 <= k < 3 * i ==> buf@[k] == palette_rgb(self.palette@)[k],
                forall|k: int| 768 <= k < buf@.len() ==> buf@[k] == old(buf)@[k],
            decreases 256 - i,
        {
            let (b, g, r, _top) = u32_bytes(self.palette[i]);
            buf[3 * i] = r;
            buf[3 * i + 1] = g;
            buf[3 * i + 2] = b;
            i += 1;
        }
        assert(buf@ =~= palette_rgb(self.palette@)
            + old(buf)@.subrange(768, old(buf)@.len() as int));
    }

    /// Take the palette from the first 768 bytes of `buf`.
    pub fn set_palette_rgb(&mut self, buf: &Vec<u8>)
        requires
            buf@.len() >= 768,
        ensures
            final(self)@ == (Term { palette: palette_of_rgb(buf@), ..old(self)@ }),
    {
        let mut palette: Vec<u32> = Vec::new();
        let mut i: usize = 0;
        while i < 256
            invariant
                i <= 256,
                buf@.len() >= 768,
                palette@ =~= palette_of_rgb(buf@).subrange(0, i as int),
            decreases 256 - i,
        {
            palette.push(u32_from_bytes(buf[3 * i + 2], buf[3 * i + 1], buf[3 * i], 0));
            i += 1;
        }
        assert(palette@ =~= palette_of_rgb(buf@));
        self.palette = palette;
    }
}

/// A blank cell: a space in light grey on black.
pub open spec fn blank_cell() -> Cell {
    Cell { glyph: 32, color: 7 }
}

proof fn lemma_le32_zero()
    ensures
        le32_bytes(0) == seq![0u8, 0u8, 0u8, 0u8],
{
    assert(le32_bytes(0) =~= seq![0u8, 0u8, 0u8, 0u8]);
}

impl Console {
    pub open spec fn wf(&self) -> bool {
        self.terminal.wf()
    }

    /// A console with a blank screen and nothing to read.
    pub fn new(palette: Vec<u32>) -> (r: Self)
        requires
            palette@.len() == 256,
        ensures
            r.wf(),
            r.title@.len() == 0,
            !r.dirty,
            r.scroll_row.is_none(),
            r.scroll_col.is_none(),
            r.max_scroll_row == 0,
            r.max_scroll_col == 0,
            r.flushed_input@.len() == 0,
            r.readers@.len() == 0,
            r.terminal.cells@ == Seq::new(2000, |i: int| blank_cell()),
            r.terminal.palette == palette,
            r.terminal.graphics_buffer.is_none(),
            r.terminal.output@.len() == 0,
            r.terminal.graphics_request.is_none(),
            r.terminal.termios.record() == Seq::new(36, |i: int| 0u8),
    {
        let mut cells: Vec<Cell> = Vec::new();
        let mut i: usize = 0;
        while i < 2000
            invariant
                i <= 2000,
                cells@ =~= Seq::new(i as nat, |k: int| blank_cell()),
            decreases 2000 - i,
        {
            cells.push(Cell { glyph: 32, color: 7 });
            i += 1;
        }
        let termios: Termios = Termios::default();
        proof { lemma_le32_zero(); }
        assert(termios.record() =~= Seq::new(36, |i: int| 0u8));
        Console {
            title: Vec::new(),
            dirty: false,
            scroll_row: None,
            scroll_col: None,
            max_scroll_row: 0,
            max_scroll_col: 0,
            flushed_input: Vec::new(),
            readers: Vec::new(),
            terminal: Terminal {
                cells,
                palette,
                graphics_buffer: None,
                termios,
                output: Vec::new(),
                graphics_request: None,
            },
        }
    }

    pub fn add_reader_task(&mut self, task: u32)
        ensures
            final(self).readers@ == old(self).readers@.push(task),
            *final(self) == (Console { readers: final(self).readers, ..*old(self) }),
    {
        self.readers.push(task);
    }

    /// Drop the first entry of `task`, if it has one.
    pub fn remove_reader_task(&mut self, task: u32)
        ensures
            final(self).readers@ == without_first(old(self).readers@, task),
            *final(self) == (Console { readers: final(self).readers, ..*old(self) }),
    {
        let mut i: usize = 0;
        proof {
            let all = self.readers@;
            assert(all.subrange(0, all.len() as int) =~= all);
            assert(all.subrange(0, 0) + without_first(all, task) =~= without_first(all, task));
        }
        while i < self.readers.len()
            invariant
                i <= self.readers@.len(),
                *self == *old(self),
                without_first(self.readers@, task) == self.readers@.subrange(0, i as int)
                    + without_first(self.readers@.subrange(i as int, self.readers@.len() as int), task),
            decreases self.readers@.len() - i,
        {
            let ghost rest = self.readers@.subrange(i as int, self.readers@.len() as int);
            let ghost all = self.readers@;
            assert(rest.drop_first() =~= all.subrange(i + 1, all.len() as int));
            if self.readers[i] == task {
                self.readers.remove(i);
                assert(self.readers@ =~= all.subrange(0, i as int) + rest.drop_first());
                return;
            }
            proof {
                assert(all.subrange(0, i as int) + (seq![rest[0]] + without_first(rest.drop_first(), task))
                    =~= all.subrange(0, i + 1) + without_first(rest.drop_first(), task));
            }
            i += 1;
        }
        assert(self.readers@.subrange(0, self.readers@.len() as int) =~= self.readers@);
        assert(self.readers@ + Seq::<u32>::empty() =~= self.readers@);
    }
}

/// `s` without the first occurrence of `x`.
pub open spec fn without_first(s: Seq<u32>, x: u32) -> Seq<u32>
    decreases s.len(),
{
    if s.len() == 0 {
        s
    } else if s[0] == x {
        s.drop_first()
    } else {
        seq![s[0]] + without_first(s.drop_first(), x)
    }
}

/// A task that was added is there until it is removed once for each time it was added.
pub proof fn removing_undoes_adding(s: Seq<u32>, x: u32)
    requires
        !s.contains(x),
    ensures
        without_first(s.push(x), x) == s,
        without_first(s, x) == s,
    decreases s.len(),
{
    if s.len() == 0 {
        assert(s.push(x).drop_first() =~= s);
    } else {
        assert(s[0] != x) by {
            assert(s.contains(s[0]));
        }
        assert(!s.drop_first().contains(x)) by {
            if s.drop_first().contains(x) {
                let i = choose|i: int| 0 <= i < s.drop_first().len() && s.drop_first()[i] == x;
                assert(s[i + 1] == x);
            }
        }
        removing_undoes_adding(s.drop_first(), x);
        assert(s.push(x).drop_first() =~= s.drop_first().push(x));
        assert(seq![s[0]] + s.drop_first() =~= s);
    }
}

} // verus!
