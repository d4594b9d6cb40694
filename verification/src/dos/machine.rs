//! The state of a DOS program: its memory, descriptors, files and screen, and the
//! calls it makes to the system.
//!
//! Handlers do not make system calls. They return the calls to make, in order.
//! Where the result of the last call matters, the machine is left with a pending
//! operation, and the result is handed to the function that finishes it.
use vstd::prelude::*;

use crate::api::compat::VMRegisters;
use crate::bits::{byte0, byte1, byte2, byte3, u16_from_bytes, u16_of, u32_bytes, u32_from_bytes, u32_of};
use crate::dos::arena::{Arena, Blocks, HighMemory};
use crate::dos::descriptors::{descriptor, LdtDescriptorParams, LdtShadow};
use crate::text::{hex_digit, push_text, text, to_hex_digit};

verus! {

pub const PSP_BASE: u32 = 0x8000;
pub const PSP_SEGMENT: u32 = 0x800;
pub const PROGRAM_SEGMENT: u32 = 0x810;
pub const DOS_MEM_TOP: u32 = 0xA_0000;

/// An interrupt return instruction lies here, for interrupts without a handler.
pub const IRET_STUB: u32 = 0x500;
pub const IRET_STUB_SEGMENT: u16 = 0x0050;
pub const IRET_STUB_OFFSET: u16 = 0x0000;
/// The entry to protected mode lies here.
pub const DPMI_ENTRY_STUB: u32 = 0x501;
pub const DPMI_ENTRY_SEGMENT: u16 = 0x0050;
pub const DPMI_ENTRY_OFFSET: u16 = 0x0001;
pub const DPMI_ENTRY_INT: u8 = 0xFE;
/// Size of the protected-mode stack.
pub const DPMI_PM_STACK_SIZE: u32 = 0x4000;

/// What every real-mode address can reach, with a page to spare.
pub const REAL_MODE_REACH: usize = 0x11_1000;

pub const MAX_DOS_FILES: usize = 20;

/// A service that was asked for and is not there.
#[derive(Clone, Copy, PartialEq, Eq, Structural, Debug)]
pub enum Missing {
    /// An interrupt, from real mode.
    Interrupt(u8),
    /// An interrupt, from protected mode.
    DpmiInterrupt(u8),
    /// INT 10h, by AH.
    Video(u8),
    /// INT 21h, by AH.
    DosApi(u8),
    /// INT 2Fh, by AH.
    Multiplex(u8),
    /// INT 31h, by AX.
    DpmiService(u16),
    /// A protected-mode fault, by error code.
    DpmiFault(u8),
}

/// A line for the log.
#[derive(Clone, Copy, PartialEq, Eq, Structural, Debug)]
pub enum LogLine {
    Missing(Missing),
    EnteringProtectedMode,
    NoSixteenBitClients,
    NoSelectors,
    NoProtectedStack,
    UnknownExit,
}

/// A call to the system.
#[derive(Clone, Copy, PartialEq, Eq, Structural, Debug)]
pub enum HostCall {
    Log(LogLine),
    LdtAllocate,
    LdtFree(u32),
    LdtModify(u32, LdtDescriptorParams),
    MapMemory(u32),
    UnmapMemory(u32, u32),
    /// Run a real-mode interrupt with these registers.
    Reflect(u8, VMRegisters),
    /// Write one byte to a handle.
    WriteByte(u32, u8),
    /// Write memory to a handle at a position: address, length, position.
    WriteMemory(u32, u32, u32, u32),
    /// Read from a handle at a position into memory: address, length, position.
    ReadMemory(u32, u32, u32, u32),
    /// Read one byte from a handle.
    ReadByte(u32),
    /// Clear the screen and put the cursor in its corner.
    ClearScreen,
    /// Put the cursor at a row and column, from 1.
    MoveCursor(u32, u32),
    /// Change the console to graphics: width, height, bits per pixel.
    EnterGraphics(u16, u16, u8),
    ExitGraphics,
    /// Hand the palette to the console.
    PushPalette,
    /// Switch line input with echo on or off.
    SetCanonical(bool),
    /// Open the file whose path was resolved; create it if it is new.
    OpenFile(bool),
    CloseFile(u32),
    /// Remove the file whose path was resolved.
    RemoveFile,
    /// Rename between the two resolved paths.
    RenameFile,
    /// Ask for the size of a file.
    FileSize(u32),
    GetTime,
    Exit(u32),
}

/// An operation that waits for the result of a call.
#[derive(Clone, Copy, PartialEq, Eq, Structural, Debug)]
pub enum Pending {
    Nothing,
    /// Descriptors are being allocated: how many are wanted.
    Descriptors(u16),
    FreeDescriptor(u32),
    Alias(LdtDescriptorParams),
    /// A selector for a conventional memory block: segment, paragraphs.
    DosBlock(u16, u16),
    /// High memory, by size.
    HighBlock(u32),
    /// A simulated interrupt, by the address of its registers.
    Reflection(u32),
    /// Selectors for protected mode.
    EnterSelectors,
    /// A stack for protected mode: selectors of code, data, stack and extra segment.
    EnterStack(u32, u32, u32, u32),
    /// A character from standard input.
    StdinChar,
    /// A character from the serial line.
    AuxChar,
    /// A file is opened for an entry of the file table.
    Open(u16),
    /// A read into memory: file table entry, address, length, and whether it is from
    /// standard input.
    Read(u16, u32, u32, bool),
    /// A write to a file table entry.
    Write(u16),
    /// A seek from the end: file table entry and distance.
    SeekEnd(u16, i32),
    /// A file is removed or renamed.
    Change,
    Date,
    Time,
}

/// An entry of the DOS file table.
#[derive(Clone, Copy, PartialEq, Eq, Structural, Debug)]
pub struct DosFileDescriptor {
    pub handle: u32,
    pub cursor: u32,
    pub open: bool,
    pub device: bool,
}

pub struct Machine {
    pub mem: Vec<u8>,
    pub arena: Arena,
    pub high: HighMemory,
    pub ldt: LdtShadow,
    /// The program runs in protected mode.
    pub dpmi_active: bool,
    pub cs_sel: u32,
    pub ds_sel: u32,
    pub ss_sel: u32,
    pub es_sel: u32,
    pub pm_stack_base: u32,
    pub pending: Pending,
    /// The descriptors allocated so far for a pending request.
    pub pending_selectors: Vec<u32>,
    /// The hardware interrupts that the program handles.
    pub irq_mask: u32,
    /// Interrupts are enabled.
    pub interrupts: bool,
    pub timer_accum: u32,
    pub files: Vec<DosFileDescriptor>,
    /// The current directory, with its drive and a backslash at the end.
    pub cwd: Vec<u8>,
    pub vga_mode: u8,
    /// The graphics buffer: physical address, mapped address and size.
    pub gfx_paddr: u32,
    pub gfx_vaddr: u32,
    pub gfx_size: u32,
    /// 256 colours of three bytes.
    pub palette: Vec<u8>,
    /// A key that was looked at but not taken.
    pub lookahead: Option<(u8, u8)>,
    /// The paths that calls on files refer to: the path, and the new one of a rename.
    pub path: Vec<u8>,
    pub new_path: Vec<u8>,
}

/// What a machine is, as a value.
pub struct State {
    pub mem: Seq<u8>,
    pub arena: Blocks,
    pub high: Seq<(u32, u32)>,
    pub ldt: Seq<LdtDescriptorParams>,
    pub dpmi_active: bool,
    pub cs_sel: u32,
    pub ds_sel: u32,
    pub ss_sel: u32,
    pub es_sel: u32,
    pub pm_stack_base: u32,
    pub pending: Pending,
    pub pending_selectors: Seq<u32>,
    pub irq_mask: u32,
    pub interrupts: bool,
    pub timer_accum: u32,
    pub files: Seq<DosFileDescriptor>,
    pub cwd: Seq<u8>,
    pub vga_mode: u8,
    pub gfx_paddr: u32,
    pub gfx_vaddr: u32,
    pub gfx_size: u32,
    pub palette: Seq<u8>,
    pub lookahead: Option<(u8, u8)>,
    pub path: Seq<u8>,
    pub new_path: Seq<u8>,
}

impl View for Machine {
    type V = State;

    open spec fn view(&self) -> State {
        State {
            mem: self.mem@,
            arena: self.arena@,
            high: self.high.blocks@,
            ldt: self.ldt.slots@,
            dpmi_active: self.dpmi_active,
            cs_sel: self.cs_sel,
            ds_sel: self.ds_sel,
            ss_sel: self.ss_sel,
            es_sel: self.es_sel,
            pm_stack_base: self.pm_stack_base,
            pending: self.pending,
            pending_selectors: self.pending_selectors@,
            irq_mask: self.irq_mask,
            interrupts: self.interrupts,
            timer_accum: self.timer_accum,
            files: self.files@,
            cwd: self.cwd@,
            vga_mode: self.vga_mode,
            gfx_paddr: self.gfx_paddr,
            gfx_vaddr: self.gfx_vaddr,
            gfx_size: self.gfx_size,
            palette: self.palette@,
            lookahead: self.lookahead,
            path: self.path@,
            new_path: self.new_path@,
        }
    }
}

/// A word of memory.
pub open spec fn mem16(mem: Seq<u8>, a: int) -> u16 {
    u16_of(mem[a], mem[a + 1])
}

pub open spec fn mem32(mem: Seq<u8>, a: int) -> u32 {
    u32_of(mem[a], mem[a + 1], mem[a + 2], mem[a + 3])
}

/// Memory with a word written.
pub open spec fn put16(mem: Seq<u8>, a: int, v: u16) -> Seq<u8> {
    mem.update(a, (v % 256) as u8).update(a + 1, (v / 256) as u8)
}

pub open spec fn put32(mem: Seq<u8>, a: int, v: u32) -> Seq<u8> {
    mem.update(a, byte0(v)).update(a + 1, byte1(v)).update(a + 2, byte2(v)).update(a + 3, byte3(v))
}

/// The linear address of a real-mode pointer.
pub open spec fn real_address(seg: int, offset: int) -> int {
    seg * 16 + offset
}

impl State {
    pub open spec fn wf(&self) -> bool {
        &&& 0x11_1000 <= self.mem.len() <= u32::MAX
        &&& self.arena.wf()
        &&& self.high.len() == 32
        &&& self.ldt.len() == 64
        &&& self.files.len() == 20
        &&& self.cwd.len() <= 256
        &&& self.palette.len() == 768
    }

    /// The linear address of a pointer: by the descriptor in protected mode, else by
    /// the segment.
    pub open spec fn address(&self, seg: u32, offset: u32) -> int {
        if self.dpmi_active {
            descriptor(self.ldt, seg).base + offset
        } else {
            real_address(seg as int, offset as int % 0x1_0000)
        }
    }

    /// `n` bytes from a pointer on can be addressed.
    pub open spec fn reaches(&self, seg: u32, offset: u32, n: int) -> bool {
        (self.dpmi_active || seg <= 0xffff) && self.address(seg, offset) + n <= self.mem.len()
    }
}

/// The carry flag is set.
pub open spec fn failed(r: VMRegisters) -> VMRegisters {
    VMRegisters { eflags: r.eflags | 1, ..r }
}

/// The carry flag is clear.
pub open spec fn succeeded(r: VMRegisters) -> VMRegisters {
    VMRegisters { eflags: r.eflags & 0xffff_fffe, ..r }
}

pub fn set_carry(regs: &mut VMRegisters)
    ensures
        *final(regs) == failed(*old(regs)),
{
    regs.eflags = regs.eflags | 1;
}

pub fn clear_carry(regs: &mut VMRegisters)
    ensures
        *final(regs) == succeeded(*old(regs)),
{
    regs.eflags = regs.eflags & 0xffff_fffe;
}

/// What a handler leaves behind: the machine, the registers, and the calls to make.
pub struct Outcome {
    pub m: State,
    pub regs: VMRegisters,
    pub calls: Seq<HostCall>,
}

impl Machine {
    pub open spec fn wf(&self) -> bool {
        self@.wf()
    }

    /// A machine with blank memory of the given size and nothing set up.
    pub fn new(mem: Vec<u8>) -> (r: Self)
        requires
            0x11_1000 <= mem@.len() <= u32::MAX,
        ensures
            r.wf(),
            r@ == (State {
                mem: mem@,
                arena: Blocks { table: Seq::new(32, |i: int| (0u16, 0u16)), start: 0 },
                high: Seq::new(32, |i: int| (0u32, 0u32)),
                ldt: Seq::new(64, |i: int| crate::dos::descriptors::no_descriptor()),
                dpmi_active: false,
                cs_sel: 0,
                ds_sel: 0,
                ss_sel: 0,
                es_sel: 0,
                pm_stack_base: 0,
                pending: Pending::Nothing,
                pending_selectors: Seq::empty(),
                irq_mask: 0,
                interrupts: true,
                timer_accum: 0,
                files: Seq::new(20, |i: int| closed_file()),
                cwd: Seq::empty(),
                vga_mode: 0x03,
                gfx_paddr: 0,
                gfx_vaddr: 0,
                gfx_size: 0,
                palette: Seq::new(768, |i: int| 0u8),
                lookahead: None,
                path: Seq::empty(),
                new_path: Seq::empty(),
            }),
    {
        let mut files: Vec<DosFileDescriptor> = Vec::new();
        let mut i: usize = 0;
        while i < 20
            invariant
                i <= 20,
                files@ =~= Seq::new(i as nat, |k: int| closed_file()),
            decreases 20 - i,
        {
            files.push(DosFileDescriptor { handle: 0, cursor: 0, open: false, device: false });
            i += 1;
        }
        let palette: Vec<u8> = vec![0u8; 768];
        assert(palette@ =~= Seq::new(768, |i: int| 0u8));
        let r = Machine {
            mem,
            arena: Arena::new(),
            high: HighMemory::new(),
            ldt: LdtShadow::new(),
            dpmi_active: false,
            cs_sel: 0,
            ds_sel: 0,
            ss_sel: 0,
            es_sel: 0,
            pm_stack_base: 0,
            pending: Pending::Nothing,
            pending_selectors: Vec::new(),
            irq_mask: 0,
            interrupts: true,
            timer_accum: 0,
            files,
            cwd: Vec::new(),
            vga_mode: 0x03,
            gfx_paddr: 0,
            gfx_vaddr: 0,
            gfx_size: 0,
            palette,
            lookahead: None,
            path: Vec::new(),
            new_path: Vec::new(),
        };
        assert(r@.path =~= Seq::empty());
        assert(r@.new_path =~= Seq::empty());
        assert(r@.pending_selectors =~= Seq::empty());
        assert(r@.cwd =~= Seq::empty());
        r
    }

    pub fn read8(&self, a: u32) -> (r: u8)
        requires
            a < self.mem@.len(),
        ensures
            r == self@.mem[a as int],
    {
        self.mem[a as usize]
    }

    pub fn read16(&self, a: u32) -> (r: u16)
        requires
            a + 2 <= self.mem@.len() <= u32::MAX,
        ensures
            r == mem16(self@.mem, a as int),
    {
        u16_from_bytes(self.mem[a as usize], self.mem[(a + 1) as usize])
    }

    pub fn read32(&self, a: u32) -> (r: u32)
        requires
            a + 4 <= self.mem@.len() <= u32::MAX,
        ensures
            r == mem32(self@.mem, a as int),
    {
        u32_from_bytes(
            self.mem[a as usize], self.mem[(a + 1) as usize], self.mem[(a + 2) as usize],
            self.mem[(a + 3) as usize],
        )
    }

    pub fn write8(&mut self, a: u32, v: u8)
        requires
            a < old(self).mem@.len(),
        ensures
            final(self)@ == (State { mem: old(self)@.mem.update(a as int, v), ..old(self)@ }),
    {
        self.mem[a as usize] = v;
    }

    pub fn write16(&mut self, a: u32, v: u16)
        requires
            a + 2 <= old(self).mem@.len() <= u32::MAX,
        ensures
            final(self)@ == (State { mem: put16(old(self)@.mem, a as int, v), ..old(self)@ }),
    {
        self.mem[a as usize] = (v % 256) as u8;
        self.mem[(a + 1) as usize] = (v / 256) as u8;
    }

    pub fn write32(&mut self, a: u32, v: u32)
        requires
            a + 4 <= old(self).mem@.len() <= u32::MAX,
        ensures
            final(self)@ == (State { mem: put32(old(self)@.mem, a as int, v), ..old(self)@ }),
    {
        let (b0, b1, b2, b3) = u32_bytes(v);
        self.mem[a as usize] = b0;
        self.mem[(a + 1) as usize] = b1;
        self.mem[(a + 2) as usize] = b2;
        self.mem[(a + 3) as usize] = b3;
    }

    /// Whether `n` bytes from a pointer on can be addressed.
    pub fn can_address(&self, seg: u32, offset: u32, n: u32) -> (r: bool)
        requires
            self.wf(),
        ensures
            r == self@.reaches(seg, offset, n as int),
    {
        let len: u64 = self.mem.len() as u64;
        if self.dpmi_active {
            self.ldt.dpmi_ldt_read(seg).base as u64 + offset as u64 + n as u64 <= len
        } else {
            seg <= 0xffff && seg as u64 * 16 + (offset % 0x1_0000) as u64 + n as u64 <= len
        }
    }

    /// The linear address of a pointer.
    pub fn resolve_ptr(&self, seg: u32, offset: u32) -> (r: u32)
        requires
            self.wf(),
            self@.reaches(seg, offset, 0),
        ensures
            r == self@.address(seg, offset),
    {
        if self.dpmi_active {
            self.ldt.dpmi_ldt_read(seg).base + offset
        } else {
            seg * 16 + offset % 0x1_0000
        }
    }
}

pub open spec fn closed_file() -> DosFileDescriptor {
    DosFileDescriptor { handle: 0, cursor: 0, open: false, device: false }
}

/// A word that was written is read back, and words elsewhere are not touched.
pub proof fn memory_words_are_independent(mem: Seq<u8>, a: int, v: u16, b: int)
    requires
        0 <= a,
        a + 2 <= mem.len(),
        0 <= b,
        b + 2 <= mem.len(),
    ensures
        mem16(put16(mem, a, v), a) == v,
        a + 2 <= b || b + 2 <= a ==> mem16(put16(mem, a, v), b) == mem16(mem, b),
{
}

/// The text in front of the number in a log line.
pub open spec fn missing_prefix(m: Missing) -> Seq<u8> {
    match m {
        Missing::Interrupt(_) => text("INT "),
        Missing::DpmiInterrupt(_) => text("DPMI INT "),
        Missing::Video(_) => text("INT 10h AH="),
        Missing::DosApi(_) => text("INT 21h AH="),
        Missing::Multiplex(_) => text("INT 2F AX="),
        Missing::DpmiService(_) => text("DPMI INT 31 AX="),
        Missing::DpmiFault(_) => text("DPMI: fault err="),
    }
}

/// Two hexadecimal digits.
pub open spec fn hex8(v: u8) -> Seq<u8> {
    seq![hex_digit(v as int / 16), hex_digit(v as int % 16)]
}

pub open spec fn missing_number(m: Missing) -> Seq<u8> {
    match m {
        Missing::Interrupt(v) => hex8(v),
        Missing::DpmiInterrupt(v) => hex8(v),
        Missing::Video(v) => hex8(v),
        Missing::DosApi(v) => hex8(v),
        Missing::Multiplex(v) => hex8(v),
        Missing::DpmiService(v) => hex8((v / 256) as u8) + hex8((v % 256) as u8),
        Missing::DpmiFault(v) => hex8(v),
    }
}

/// The text of a log line.
pub open spec fn log_bytes(l: LogLine) -> Seq<u8> {
    match l {
        LogLine::Missing(m) => missing_prefix(m) + missing_number(m) + seq![10u8],
        LogLine::EnteringProtectedMode => text("DPMI: entering protected mode\n"),
        LogLine::NoSixteenBitClients => text("DPMI: 16-bit clients not supported\n"),
        LogLine::NoSelectors => text("DPMI: failed to allocate LDT selectors\n"),
        LogLine::NoProtectedStack => text("DPMI: failed to allocate PM stack\n"),
        LogLine::UnknownExit => text("DPMI: unknown exit reason\n"),
    }
}

fn push_hex8(out: &mut Vec<u8>, v: u8)
    ensures
        final(out)@ == old(out)@ + hex8(v),
{
    out.push(to_hex_digit(v / 16));
    out.push(to_hex_digit(v % 16));
    assert(out@ =~= old(out)@ + hex8(v));
}

/// A prefix, the number of a missing service in hexadecimal, and a line end.
pub fn fmt_unsupported(missing: Missing) -> (r: Vec<u8>)
    ensures
        r@ == log_bytes(LogLine::Missing(missing)),
{
    let mut out: Vec<u8> = Vec::new();
    match missing {
        Missing::Interrupt(_) => push_text(&mut out, "INT "),
        Missing::DpmiInterrupt(_) => push_text(&mut out, "DPMI INT "),
        Missing::Video(_) => push_text(&mut out, "INT 10h AH="),
        Missing::DosApi(_) => push_text(&mut out, "INT 21h AH="),
        Missing::Multiplex(_) => push_text(&mut out, "INT 2F AX="),
        Missing::DpmiService(_) => push_text(&mut out, "DPMI INT 31 AX="),
        Missing::DpmiFault(_) => push_text(&mut out, "DPMI: fault err="),
    }
    assert(out@ =~= missing_prefix(missing));
    match missing {
        Missing::Interrupt(v) => push_hex8(&mut out, v),
        Missing::DpmiInterrupt(v) => push_hex8(&mut out, v),
        Missing::Video(v) => push_hex8(&mut out, v),
        Missing::DosApi(v) => push_hex8(&mut out, v),
        Missing::Multiplex(v) => push_hex8(&mut out, v),
        Missing::DpmiService(v) => {
            push_hex8(&mut out, (v / 256) as u8);
            push_hex8(&mut out, (v % 256) as u8);
        }
        Missing::DpmiFault(v) => push_hex8(&mut out, v),
    }
    assert(out@ =~= missing_prefix(missing) + missing_number(missing));
    out.push(10);
    out
}

/// The text of a log line.
pub fn dos_log(line: LogLine) -> (r: Vec<u8>)
    ensures
        r@ == log_bytes(line),
{
    let mut out: Vec<u8> = Vec::new();
    match line {
        LogLine::Missing(m) => {
            return fmt_unsupported(m);
        }
        LogLine::EnteringProtectedMode => push_text(&mut out, "DPMI: entering protected mode\n"),
        LogLine::NoSixteenBitClients => push_text(&mut out, "DPMI: 16-bit clients not supported\n"),
        LogLine::NoSelectors => push_text(&mut out, "DPMI: failed to allocate LDT selectors\n"),
        LogLine::NoProtectedStack => push_text(&mut out, "DPMI: failed to allocate PM stack\n"),
        LogLine::UnknownExit => push_text(&mut out, "DPMI: unknown exit reason\n"),
    }
    assert(out@ =~= log_bytes(line));
    out
}

} // verus!
