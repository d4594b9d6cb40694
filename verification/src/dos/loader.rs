//! Loading DOS programs, and running them in virtual 8086 mode.
use vstd::prelude::*;

use crate::api::compat::VMRegisters;
use crate::api::termios::{ECHO, ICANON};
use crate::bits::{low16, u16_from_bytes, u16_of, u32_from_bytes, u32_of, word0};
use crate::bytes::spliced;
use crate::dos::arena::{lemma_slot_of, slot_of, Blocks};
use crate::dos::machine::{
    mem16, memory_words_are_independent, put16, real_address, LogLine, Machine, Missing, State,
    DPMI_ENTRY_INT, IRET_STUB, PROGRAM_SEGMENT, PSP_BASE, PSP_SEGMENT,
};

verus! {

/// The header of an MZ executable.
#[derive(Clone, Copy, PartialEq, Eq, Structural, Debug)]
pub struct MzHeader {
    pub last_page_bytes: u16,
    pub total_pages: u16,
    pub relocation_count: u16,
    pub header_paragraphs: u16,
    pub initial_ss: u16,
    pub initial_sp: u16,
    pub initial_ip: u16,
    pub initial_cs: u16,
    pub relocation_offset: u16,
}

/// A word of a header.
pub open spec fn header_word(b: Seq<u8>, at: int) -> u16 {
    u16_of(b[at], b[at + 1])
}

impl MzHeader {
    pub open spec fn of_bytes(b: Seq<u8>) -> MzHeader {
        MzHeader {
            last_page_bytes: header_word(b, 2),
            total_pages: header_word(b, 4),
            relocation_count: header_word(b, 6),
            header_paragraphs: header_word(b, 8),
            initial_ss: header_word(b, 14),
            initial_sp: header_word(b, 16),
            initial_ip: header_word(b, 20),
            initial_cs: header_word(b, 22),
            relocation_offset: header_word(b, 24),
        }
    }

    pub open spec fn header_bytes(&self) -> int {
        self.header_paragraphs * 16
    }

    /// The size of the file: whole pages, of which the last may be partly used.
    pub open spec fn file_bytes(&self) -> int {
        if self.last_page_bytes == 0 {
            self.total_pages * 512
        } else {
            (self.total_pages - 1) * 512 + self.last_page_bytes
        }
    }

    pub fn parse(bytes: &[u8]) -> (r: Self)
        requires
            bytes@.len() == 28,
        ensures
            r == Self::of_bytes(bytes@),
    {
        MzHeader {
            last_page_bytes: u16_from_bytes(bytes[2], bytes[3]),
            total_pages: u16_from_bytes(bytes[4], bytes[5]),
            relocation_count: u16_from_bytes(bytes[6], bytes[7]),
            header_paragraphs: u16_from_bytes(bytes[8], bytes[9]),
            initial_ss: u16_from_bytes(bytes[14], bytes[15]),
            initial_sp: u16_from_bytes(bytes[16], bytes[17]),
            initial_ip: u16_from_bytes(bytes[20], bytes[21]),
            initial_cs: u16_from_bytes(bytes[22], bytes[23]),
            relocation_offset: u16_from_bytes(bytes[24], bytes[25]),
        }
    }

    /// Where the program image starts in the file.
    pub fn header_size(&self) -> (r: u32)
        ensures
            r == self.header_bytes(),
    {
        self.header_paragraphs as u32 * 16
    }

    /// The size of the program image: the file without its header.
    pub fn image_size(&self) -> (r: u32)
        requires
            self.last_page_bytes != 0 ==> self.total_pages >= 1,
            self.header_bytes() <= self.file_bytes(),
        ensures
            r == self.file_bytes() - self.header_bytes(),
    {
        let file: u32 = if self.last_page_bytes == 0 {
            self.total_pages as u32 * 512
        } else {
            (self.total_pages as u32 - 1) * 512 + self.last_page_bytes as u32
        };
        file - self.header_size()
    }

    /// The registers with which the program starts. Code and stack are relative to
    /// where it was loaded.
    pub fn start_registers(&self) -> (r: VMRegisters)
        ensures
            r == (VMRegisters {
                eip: self.initial_ip as u32,
                esp: self.initial_sp as u32,
                cs: (0x810 + self.initial_cs) as u32,
                ss: (0x810 + self.initial_ss) as u32,
                ..blank_registers()
            }),
    {
        VMRegisters {
            eip: self.initial_ip as u32,
            esp: self.initial_sp as u32,
            cs: PROGRAM_SEGMENT + self.initial_cs as u32,
            ss: PROGRAM_SEGMENT + self.initial_ss as u32,
            ..com_registers()
        }
    }
}

/// All registers zero, and all segments that of the program prefix.
pub open spec fn blank_registers() -> VMRegisters {
    VMRegisters {
        eax: 0,
        ebx: 0,
        ecx: 0,
        edx: 0,
        esi: 0,
        edi: 0,
        ebp: 0,
        eip: 0x100,
        cs: 0x800,
        eflags: 0x2,
        esp: 0xfffe,
        ss: 0x800,
        es: 0x800,
        ds: 0x800,
        fs: 0x800,
        gs: 0x800,
    }
}

/// The registers with which a COM program starts.
pub fn com_registers() -> (r: VMRegisters)
    ensures
        r == blank_registers(),
{
    VMRegisters {
        eax: 0,
        ebx: 0,
        ecx: 0,
        edx: 0,
        esi: 0,
        edi: 0,
        ebp: 0,
        eip: 0x100,
        cs: PSP_SEGMENT,
        eflags: 0x2,
        esp: 0xfffe,
        ss: PSP_SEGMENT,
        es: PSP_SEGMENT,
        ds: PSP_SEGMENT,
        fs: PSP_SEGMENT,
        gs: PSP_SEGMENT,
    }
}

/// Whether a file is an MZ executable, by its first two bytes.
pub fn is_mz(a: u8, b: u8) -> (r: bool)
    ensures
        r == ((a == 0x4D && b == 0x5A) || (a == 0x5A && b == 0x4D)),
{
    (a == 0x4D && b == 0x5A) || (a == 0x5A && b == 0x4D)
}

/// The program segment prefix: its exit, the top of memory, the handle table, the
/// call of DOS, and an empty command tail.
pub open spec fn program_prefix() -> Seq<u8> {
    Seq::new(
        256,
        |i: int| if i == 0x00 || i == 0x50 {
            0xCDu8
        } else if i == 0x01 {
            0x20u8
        } else if i == 0x03 {
            0xA0u8
        } else if i == 0x19 || i == 0x1A {
            0x01u8
        } else if i == 0x1B {
            0x02u8
        } else if 0x1C <= i < 0x2C {
            0xFFu8
        } else if i == 0x32 {
            20u8
        } else if i == 0x51 {
            0x21u8
        } else if i == 0x52 {
            0xCBu8
        } else if i == 0x81 {
            0x0Du8
        } else {
            0u8
        },
    )
}

/// Memory with every interrupt vector at the default handler.
pub open spec fn default_vectors(mem: Seq<u8>) -> Seq<u8> {
    Seq::new(mem.len(), |k: int| if 0 <= k < 0x400 { if k % 4 == 2 { 0x50u8 } else { 0u8 } } else { mem[k] })
}

/// The BIOS data area of a colour text screen.
pub open spec fn text_data_area(mem: Seq<u8>) -> Seq<u8> {
    let a = put16(put16(put16(mem.update(0x449, 0x03), 0x44A, 80), 0x44C, 4000), 0x44E, 0);
    let b = put16(a.update(0x460, 0x0D).update(0x461, 0x0C).update(0x462, 0), 0x463, 0x3D4);
    put16(b.update(0x484, 24), 0x485, 16).update(0x487, 0x60).update(0x489, 0x11)
}

/// Low memory as a program finds it: stubs, vectors and data area.
pub open spec fn low_memory(mem: Seq<u8>) -> Seq<u8> {
    text_data_area(
        default_vectors(
            mem.update(0x500, 0xCF).update(0x501, 0xCD).update(0x502, 0xFE).update(0x503, 0xCB),
        ),
    )
}

/// Every interrupt without a handler leads to an instruction that returns.
pub proof fn default_vectors_lead_to_iret(mem: Seq<u8>, n: int)
    requires
        0x11_1000 <= mem.len(),
        0 <= n < 256,
    ensures
        ({
            let m = low_memory(mem);
            &&& mem16(m, n * 4) == 0
            &&& mem16(m, n * 4 + 2) == 0x50
            &&& m[real_address(0x50, 0)] == 0xCF
        }),
{
}

/// The memory after one relocation: the load segment is added to the word.
pub open spec fn relocated_one(mem: Seq<u8>, fix: (u16, u16)) -> Seq<u8> {
    let a = 0x8100 + fix.1 * 16 + fix.0;
    put16(mem, a, ((mem16(mem, a) + 0x810) % 0x1_0000) as u16)
}

/// The memory after the first `n` relocations: offset and segment of each word.
pub open spec fn relocated(mem: Seq<u8>, fixes: Seq<(u16, u16)>, n: nat) -> Seq<u8>
    decreases n,
{
    if n == 0 { mem } else { relocated_one(relocated(mem, fixes, (n - 1) as nat), fixes[n - 1]) }
}

/// The blocks with the memory of the program among them: all of it, from its prefix on.
/// A full table stays as it is.
pub open spec fn claimed(arena: Blocks) -> Blocks {
    let b = Blocks { start: 0x800, ..arena };
    match slot_of(b.table, 0) {
        Some(i) => b.with_block(i, (0x800, 0x9800)),
        None => b,
    }
}

/// Memory with a COM program loaded: low memory, the prefix, and the image behind it.
pub open spec fn com_loaded(mem: Seq<u8>, image: Seq<u8>) -> Seq<u8> {
    spliced(spliced(low_memory(mem), 0x8000, program_prefix()), 0x8100, image)
}

/// The registers with which an MZ program starts.
pub open spec fn mz_start(header: MzHeader) -> VMRegisters {
    VMRegisters {
        eip: header.initial_ip as u32,
        esp: header.initial_sp as u32,
        cs: (0x810 + header.initial_cs) as u32,
        ss: (0x810 + header.initial_ss) as u32,
        ..blank_registers()
    }
}

/// Memory with an MZ program loaded: like a COM program, with its segments moved.
pub open spec fn mz_loaded(mem: Seq<u8>, image: Seq<u8>, fixes: Seq<(u16, u16)>) -> Seq<u8> {
    relocated(com_loaded(mem, image), fixes, fixes.len())
}

/// Every word to relocate lies in memory.
pub open spec fn fixes_in_memory(fixes: Seq<(u16, u16)>, len: int) -> bool {
    forall|i: int| 0 <= i < fixes.len() ==> 0x8100 + (#[trigger] fixes[i]).1 * 16 + fixes[i].0 + 2 <= len
}

impl Machine {
    /// Set up low memory.
    pub fn setup_dos_memory(&mut self)
        requires
            old(self).wf(),
        ensures
            final(self).wf(),
            final(self)@ == (State { mem: low_memory(old(self)@.mem), ..old(self)@ }),
    {
        self.write8(IRET_STUB, 0xCF);
        self.write8(0x501, 0xCD);
        self.write8(0x502, DPMI_ENTRY_INT);
        self.write8(0x503, 0xCB);
        let ghost stubs = self.mem@;
        let mut i: u32 = 0;
        while i < 0x400
            invariant
                i <= 0x400,
                self.wf(),
                stubs.len() == self.mem@.len(),
                forall|k: int| 0 <= k < i ==> #[trigger] self.mem@[k] == (if k % 4 == 2 { 0x50u8 } else { 0u8 }),
                forall|k: int| i <= k < stubs.len() ==> #[trigger] self.mem@[k] == stubs[k],
                self@ == (State { mem: self@.mem, ..old(self)@ }),
            decreases 0x400 - i,
        {
            self.write8(i, if i % 4 == 2 { 0x50 } else { 0 });
            i += 1;
        }
        assert(self.mem@ =~= default_vectors(stubs));
        self.write8(0x449, 0x03);
        self.write16(0x44A, 80);
        self.write16(0x44C, 4000);
        self.write16(0x44E, 0);
        self.write8(0x460, 0x0D);
        self.write8(0x461, 0x0C);
        self.write8(0x462, 0);
        self.write16(0x463, 0x3D4);
        self.write8(0x484, 24);
        self.write16(0x485, 16);
        self.write8(0x487, 0x60);
        self.write8(0x489, 0x11);
    }

    /// Write the program segment prefix.
    pub fn setup_psp(&mut self)
        requires
            old(self).wf(),
        ensures
            final(self).wf(),
            final(self)@ == (State {
                mem: spliced(old(self)@.mem, 0x8000, program_prefix()),
                ..old(self)@
            }),
    {
        let mut psp: Vec<u8> = vec![0u8; 256];
        psp[0x00] = 0xCD;
        psp[0x01] = 0x20;
        psp[0x03] = 0xA0;
        psp[0x19] = 0x01;
        psp[0x1A] = 0x01;
        psp[0x1B] = 0x02;
        let mut i: usize = 0x1C;
        let ghost head = psp@;
        while i < 0x2C
            invariant
                0x1C <= i <= 0x2C,
                psp@.len() == 256,
                head.len() == 256,
                forall|k: int| 0x1C <= k < i ==> #[trigger] psp@[k] == 0xFFu8,
                forall|k: int| 0 <= k < 256 && !(0x1C <= k < i) ==> #[trigger] psp@[k] == head[k],
            decreases 0x2C - i,
        {
            psp[i] = 0xFF;
            i += 1;
        }
        psp[0x32] = 20;
        psp[0x50] = 0xCD;
        psp[0x51] = 0x21;
        psp[0x52] = 0xCB;
        psp[0x81] = 0x0D;
        assert(psp@ =~= program_prefix());
        self.store(PSP_BASE, psp.as_slice());
    }

    /// Register the memory of the program: all of it, from its prefix on.
    pub fn claim_memory(&mut self)
        requires
            old(self).wf(),
        ensures
            final(self).wf(),
            final(self)@ == (State { arena: claimed(old(self)@.arena), ..old(self)@ }),
    {
        proof { lemma_slot_of(self.arena@.table, 0); }
        self.arena.dos_arena_set_start(PSP_SEGMENT as u16);
        self.arena.dos_arena_record(PSP_SEGMENT as u16, 0xA000 - PSP_SEGMENT as u16);
    }

    /// Load a COM program: its image follows the prefix.
    pub fn load_com(&mut self, image: &[u8]) -> (r: VMRegisters)
        requires
            old(self).wf(),
            0x8100 + image@.len() <= old(self).mem@.len(),
        ensures
            final(self).wf(),
            r == blank_registers(),
            final(self)@.mem == com_loaded(old(self)@.mem, image@),
            final(self)@ == (State {
                mem: spliced(
                    spliced(low_memory(old(self)@.mem), 0x8000, program_prefix()), 0x8100, image@,
                ),
                arena: claimed(old(self)@.arena),
                ..old(self)@
            }),
    {
        self.setup_dos_memory();
        self.setup_psp();
        self.store(PSP_BASE + 0x100, image);
        self.claim_memory();
        com_registers()
    }

    /// Load an MZ program: its image follows the prefix, and each word that holds a
    /// segment is moved to where the program lies.
    pub fn load_mz_exe(&mut self, header: &MzHeader, image: &[u8], relocations: &[(u16, u16)]) -> (r:
        VMRegisters)
        requires
            old(self).wf(),
            0x8100 + image@.len() <= old(self).mem@.len(),
            fixes_in_memory(relocations@, old(self).mem@.len() as int),
        ensures
            final(self).wf(),
            r == (VMRegisters {
                eip: header.initial_ip as u32,
                esp: header.initial_sp as u32,
                cs: (0x810 + header.initial_cs) as u32,
                ss: (0x810 + header.initial_ss) as u32,
                ..blank_registers()
            }),
            r == mz_start(*header),
            final(self)@.mem == mz_loaded(old(self)@.mem, image@, relocations@),
            final(self)@ == (State {
                mem: relocated(
                    spliced(
                        spliced(low_memory(old(self)@.mem), 0x8000, program_prefix()), 0x8100,
                        image@,
                    ),
                    relocations@,
                    relocations@.len(),
                ),
                arena: claimed(old(self)@.arena),
                ..old(self)@
            }),
    {
        self.setup_dos_memory();
        self.setup_psp();
        self.store(PSP_BASE + 0x100, image);
        self.relocate(relocations);
        self.claim_memory();
        header.start_registers()
    }

    fn relocate(&mut self, relocations: &[(u16, u16)])
        requires
            old(self).wf(),
            fixes_in_memory(relocations@, old(self).mem@.len() as int),
        ensures
            final(self).wf(),
            final(self)@ == (State {
                mem: relocated(old(self)@.mem, relocations@, relocations@.len()),
                ..old(self)@
            }),
    {
        let mut i: usize = 0;
        while i < relocations.len()
            invariant
                i <= relocations@.len(),
                self.wf(),
                self.mem@.len() == old(self).mem@.len(),
                fixes_in_memory(relocations@, old(self).mem@.len() as int),
                self@ == (State {
                    mem: relocated(old(self)@.mem, relocations@, i as nat),
                    ..old(self)@
                }),
            decreases relocations@.len() - i,
        {
            let (offset, segment): (u16, u16) = relocations[i];
            let a: u32 = 0x8100 + segment as u32 * 16 + offset as u32;
            let word: u16 = self.read16(a);
            self.write16(a, ((word as u32 + PROGRAM_SEGMENT) % 0x1_0000) as u16);
            i += 1;
        }
    }
}

/// What an instruction that the processor refused asks for.
#[derive(Clone, Copy, PartialEq, Eq, Structural, Debug)]
pub enum Fault {
    /// It was carried out.
    Continue,
    /// The program halts, or cannot go on.
    Stop,
    /// An interrupt is to be served, and then the program goes on two bytes further.
    Interrupt(u8),
}

/// The stack address of the program.
pub open spec fn stack_address(r: VMRegisters) -> int {
    real_address(r.ss as int, word0(r.esp) as int)
}

/// A word was pushed: the stack pointer is taken in 16 bits before it moves.
pub open spec fn pushed(m: State, r: VMRegisters, v: u16) -> (State, VMRegisters) {
    let sp = ((word0(r.esp) - 2) % 0x1_0000_0000) as u32;
    let after = VMRegisters { esp: sp, ..r };
    (State { mem: put16(m.mem, stack_address(after), v), ..m }, after)
}

/// Flags with their low word replaced, as far as a program may.
pub open spec fn with_flags(eflags: u32, flags: u16) -> u32 {
    (eflags & 0xFFF2_0000) | (flags as u32)
}

/// The effect of a refused instruction.
#[verifier::opaque]
pub open spec fn fault(m: State, r: VMRegisters) -> (State, VMRegisters, Fault) {
    let at = real_address(r.cs as int, r.eip as int);
    let op = m.mem[at];
    let next = VMRegisters { eip: (r.eip + 1) as u32, ..r };
    let sp = stack_address(r);
    if op == 0x9c {
        // PUSHF
        let (m1, r1) = pushed(m, r, word0(r.eflags));
        (m1, VMRegisters { eip: (r.eip + 1) as u32, ..r1 }, Fault::Continue)
    } else if op == 0x9d {
        // POPF
        (
            m,
            VMRegisters {
                eflags: with_flags(r.eflags, mem16(m.mem, sp)),
                esp: (word0(r.esp) + 2) as u32,
                ..next
            },
            Fault::Continue,
        )
    } else if op == 0xcd {
        // INT n
        (m, r, Fault::Interrupt(m.mem[at + 1]))
    } else if op == 0xcf {
        // IRET
        (
            m,
            VMRegisters {
                eip: mem16(m.mem, sp) as u32,
                cs: mem16(m.mem, sp + 2) as u32,
                eflags: with_flags(r.eflags, mem16(m.mem, sp + 4)),
                esp: (word0(r.esp) + 6) as u32,
                ..r
            },
            Fault::Continue,
        )
    } else if op == 0xfa {
        // CLI
        (State { interrupts: false, ..m }, next, Fault::Continue)
    } else if op == 0xfb {
        // STI
        (State { interrupts: true, ..m }, next, Fault::Continue)
    } else {
        // HLT and all others
        (m, r, Fault::Stop)
    }
}

/// Code and stack segments are real-mode segments, and the instruction is in reach.
pub open spec fn real_mode(m: State, r: VMRegisters) -> bool {
    r.cs <= 0xffff && r.ss <= 0xffff && real_address(r.cs as int, r.eip as int) + 2 <= m.mem.len()
}

/// A hardware interrupt is delivered: flags, code segment and instruction pointer
/// are pushed, and the handler takes over. The default handler is passed over.
#[verifier::opaque]
pub open spec fn delivered(m: State, r: VMRegisters, int_num: int) -> (State, VMRegisters) {
    let offset = mem16(m.mem, int_num * 4);
    let segment = mem16(m.mem, int_num * 4 + 2);
    if segment == 0x50 && offset == 0 {
        (m, r)
    } else {
        let (m1, r1) = pushed(m, r, word0(r.eflags));
        let (m2, r2) = pushed(m1, r1, word0(r.cs));
        let (m3, r3) = pushed(m2, r2, word0(r.eip));
        (m3, VMRegisters { cs: segment as u32, eip: offset as u32, ..r3 })
    }
}

/// A tick of the 100 Hz clock: the count, and whether a DOS tick is due, 18.2 times
/// a second.
pub open spec fn timer_tick(accum: u32) -> (u32, bool) {
    if accum + 182 < 1000 { ((accum + 182) as u32, false) } else { ((accum + 182 - 1000) as u32, true) }
}

/// The interrupts that are pending: bit 0 the timer, bit 1 the keyboard.
pub open spec fn all_delivered(m: State, r: VMRegisters, pending: u32) -> (State, VMRegisters) {
    let (m1, r1) = if pending % 2 == 1 {
        let (accum, due) = timer_tick(m.timer_accum);
        let ticked = State { timer_accum: accum, ..m };
        if due { delivered(ticked, r, 0x1C) } else { (ticked, r) }
    } else {
        (m, r)
    };
    if (pending / 2) % 2 == 1 { delivered(m1, r1, 0x09) } else { (m1, r1) }
}

impl Machine {
    fn push(&mut self, regs: &mut VMRegisters, v: u16)
        requires
            old(self).wf(),
            old(regs).ss <= 0xffff,
        ensures
            final(self).wf(),
            (final(self)@, *final(regs)) == pushed(old(self)@, *old(regs), v),
    {
        regs.esp = (low16(regs.esp) as u32).wrapping_sub(2);
        let a: u32 = regs.ss * 16 + low16(regs.esp) as u32;
        self.write16(a, v);
    }

    /// Carry out an instruction that the processor refused in 8086 mode.
    pub fn handle_fault(&mut self, regs: &mut VMRegisters) -> (r: Fault)
        requires
            old(self).wf(),
            real_mode(old(self)@, *old(regs)),
        ensures
            final(self).wf(),
            (final(self)@, *final(regs), r) == fault(old(self)@, *old(regs)),
    {
        reveal(fault);
        let at: u32 = regs.cs * 16 + regs.eip;
        let sp: u32 = regs.ss * 16 + low16(regs.esp) as u32;
        match self.read8(at) {
            0x9c => {
                let flags: u16 = low16(regs.eflags);
                self.push(regs, flags);
                regs.eip = regs.eip + 1;
                Fault::Continue
            }
            0x9d => {
                let flags: u16 = self.read16(sp);
                regs.eflags = (regs.eflags & 0xFFF2_0000) | flags as u32;
                regs.esp = low16(regs.esp) as u32 + 2;
                regs.eip = regs.eip + 1;
                Fault::Continue
            }
            0xcd => Fault::Interrupt(self.read8(at + 1)),
            0xcf => {
                regs.eip = self.read16(sp) as u32;
                regs.cs = self.read16(sp + 2) as u32;
                let flags: u16 = self.read16(sp + 4);
                regs.eflags = (regs.eflags & 0xFFF2_0000) | flags as u32;
                regs.esp = low16(regs.esp) as u32 + 6;
                Fault::Continue
            }
            0xfa => {
                self.interrupts = false;
                regs.eip = regs.eip + 1;
                Fault::Continue
            }
            0xfb => {
                self.interrupts = true;
                regs.eip = regs.eip + 1;
                Fault::Continue
            }
            _ => Fault::Stop,
        }
    }

    fn deliver(&mut self, regs: &mut VMRegisters, int_num: u8)
        requires
            old(self).wf(),
            old(regs).ss <= 0xffff,
        ensures
            final(self).wf(),
            (final(self)@, *final(regs)) == delivered(old(self)@, *old(regs), int_num as int),
            final(regs).ss == old(regs).ss,
            final(self)@.timer_accum == old(self)@.timer_accum,
    {
        reveal(delivered);
        let a: u32 = int_num as u32 * 4;
        let offset: u16 = self.read16(a);
        let segment: u16 = self.read16(a + 2);
        if segment == 0x50 && offset == 0 {
            return;
        }
        let flags: u16 = low16(regs.eflags);
        let cs: u16 = low16(regs.cs);
        let ip: u16 = low16(regs.eip);
        self.push(regs, flags);
        self.push(regs, cs);
        self.push(regs, ip);
        regs.cs = segment as u32;
        regs.eip = offset as u32;
    }

    /// Deliver the pending hardware interrupts to the program.
    pub fn deliver_pending_irqs(&mut self, pending: u32, regs: &mut VMRegisters)
        requires
            old(self).wf(),
            old(regs).ss <= 0xffff,
            old(self).timer_accum < 1000,
        ensures
            final(self).wf(),
            (final(self)@, *final(regs)) == all_delivered(old(self)@, *old(regs), pending),
            final(self).timer_accum < 1000,
    {
        if pending % 2 == 1 {
            let accum: u32 = self.timer_accum + 182;
            if accum < 1000 {
                self.timer_accum = accum;
            } else {
                self.timer_accum = accum - 1000;
                self.deliver(regs, 0x1C);
            }
        }
        if (pending / 2) % 2 == 1 {
            self.deliver(regs, 0x09);
        }
    }

    /// The hardware interrupts to let through: none while the program has them
    /// disabled.
    pub fn irq_mask(&self) -> (r: u32)
        ensures
            r == (if self@.interrupts { self@.irq_mask } else { 0 }),
    {
        if self.interrupts { self.irq_mask } else { 0 }
    }
}

/// Why 8086 mode was left.
#[derive(Clone, Copy, PartialEq, Eq, Structural, Debug)]
pub enum Vm86Exit {
    /// An instruction was refused.
    Fault,
    /// Hardware interrupts are pending.
    Interrupts(u32),
    /// Anything else ends the program.
    End,
}

/// The meaning of the reason for which 8086 mode was left.
pub fn vm86_exit(reason: u32) -> (r: Vm86Exit)
    ensures
        r == (if reason == 0 {
            Vm86Exit::Fault
        } else if reason % 256 == 1 {
            Vm86Exit::Interrupts(reason / 256)
        } else {
            Vm86Exit::End
        }),
{
    if reason == 0 {
        Vm86Exit::Fault
    } else if reason % 256 == 1 {
        Vm86Exit::Interrupts(reason / 256)
    } else {
        Vm86Exit::End
    }
}

/// Who serves an interrupt.
#[derive(Clone, Copy, PartialEq, Eq, Structural, Debug)]
pub enum Service {
    Video,
    Keyboard,
    Dos,
    Multiplex,
    EnterProtectedMode,
    Missing(LogLine),
}

/// The service behind an interrupt of the program.
pub fn handle_interrupt(irq: u8) -> (r: Service)
    ensures
        r == (match irq {
            0x10 => Service::Video,
            0x16 => Service::Keyboard,
            0x21 => Service::Dos,
            0x2f => Service::Multiplex,
            0xFE => Service::EnterProtectedMode,
            _ => Service::Missing(LogLine::Missing(Missing::Interrupt(irq))),
        }),
{
    match irq {
        0x10 => Service::Video,
        0x16 => Service::Keyboard,
        0x21 => Service::Dos,
        0x2f => Service::Multiplex,
        0xFE => Service::EnterProtectedMode,
        _ => Service::Missing(LogLine::Missing(Missing::Interrupt(irq))),
    }
}

/// What the program needs next.
#[derive(Clone, Copy, PartialEq, Eq, Structural, Debug)]
pub enum CompatStep {
    /// Go on in 8086 mode.
    Resume,
    /// Serve an interrupt, then step over the instruction that raised it.
    Serve(u8),
    /// The program is over.
    End,
}

/// What follows the end of a turn in 8086 mode: refused instructions are carried out,
/// and pending interrupts are delivered with the trap flag cleared.
pub open spec fn compat_step(m: State, r: VMRegisters, reason: u32) -> (
    State,
    VMRegisters,
    CompatStep,
) {
    if reason == 0 {
        let (m1, r1, f) = fault(m, r);
        (
            m1,
            r1,
            match f {
                Fault::Continue => CompatStep::Resume,
                Fault::Stop => CompatStep::End,
                Fault::Interrupt(n) => CompatStep::Serve(n),
            },
        )
    } else if reason % 256 == 1 {
        let (m1, r1) = all_delivered(
            m, VMRegisters { eflags: r.eflags & !0x100u32, ..r }, reason / 256,
        );
        (m1, r1, CompatStep::Resume)
    } else {
        (m, r, CompatStep::End)
    }
}

impl Machine {
    /// Act upon the reason for which 8086 mode was left.
    pub fn compat_start(&mut self, regs: &mut VMRegisters, reason: u32) -> (r: CompatStep)
        requires
            old(self).wf(),
            real_mode(old(self)@, *old(regs)),
            old(self).timer_accum < 1000,
        ensures
            final(self).wf(),
            final(self).timer_accum < 1000,
            (final(self)@, *final(regs), r) == compat_step(old(self)@, *old(regs), reason),
    {
        reveal(fault);
        match vm86_exit(reason) {
            Vm86Exit::Fault => match self.handle_fault(regs) {
                Fault::Continue => CompatStep::Resume,
                Fault::Stop => CompatStep::End,
                Fault::Interrupt(n) => CompatStep::Serve(n),
            },
            Vm86Exit::Interrupts(pending) => {
                regs.eflags = regs.eflags & !0x100u32;
                self.deliver_pending_irqs(pending, regs);
                CompatStep::Resume
            },
            Vm86Exit::End => CompatStep::End,
        }
    }
}

/// Step over the instruction that raised an interrupt.
pub fn step_over(regs: &mut VMRegisters)
    requires
        old(regs).eip <= u32::MAX - 2,
    ensures
        *final(regs) == (VMRegisters { eip: (old(regs).eip + 2) as u32, ..*old(regs) }),
{
    regs.eip = regs.eip + 2;
}

/// The local flags of a terminal with line input and echo on or off.
pub fn set_stdin_canonical(lflags: u32, enable: bool) -> (r: u32)
    ensures
        r == (if enable { lflags | (ECHO | ICANON) } else { lflags & !(ECHO | ICANON) }),
{
    if enable { lflags | (ECHO | ICANON) } else { lflags & !(ECHO | ICANON) }
}

/// The mark of the page that tells what to load.
pub const LOAD_INFO_MAGIC: u32 = 0x4C4F4144;

/// Where the page that tells what to load has the path of the program, and its length.
/// A page without the mark has none.
pub fn load_info_path(page: &[u8]) -> (r: Option<(u32, u32)>)
    requires
        page@.len() >= 24,
    ensures
        r == (if u32_of(page@[0], page@[1], page@[2], page@[3]) != LOAD_INFO_MAGIC {
            None
        } else {
            Some(
                (
                    u32_of(page@[4], page@[5], page@[6], page@[7]),
                    u32_of(page@[8], page@[9], page@[10], page@[11]),
                ),
            )
        }),
{
    if u32_from_bytes(page[0], page[1], page[2], page[3]) != LOAD_INFO_MAGIC {
        return None;
    }
    Some(
        (
            u32_from_bytes(page[4], page[5], page[6], page[7]),
            u32_from_bytes(page[8], page[9], page[10], page[11]),
        ),
    )
}

/// When the handler of a hardware interrupt returns at once, the program goes on
/// where it was, with its stack and its flags.
pub proof fn iret_undoes_delivery(m: State, r: VMRegisters, int_num: int)
    requires
        m.wf(),
        0 <= int_num < 256,
        r.ss <= 0xffff,
        r.cs <= 0xffff,
        r.eip <= 0xffff,
        6 <= r.esp <= 0xffff,
        ({
            let (m1, r1) = delivered(m, r, int_num);
            real_mode(m1, r1) && m1.mem[real_address(r1.cs as int, r1.eip as int)] == 0xcf
        }),
        !(mem16(m.mem, int_num * 4 + 2) == 0x50 && mem16(m.mem, int_num * 4) == 0),
    ensures
        ({
            let (m1, r1) = delivered(m, r, int_num);
            let (m2, r2, f) = fault(m1, r1);
            &&& f is Continue
            &&& r2.eip == r.eip
            &&& r2.cs == r.cs
            &&& r2.esp == r.esp
            &&& r2.eflags == with_flags(r.eflags, word0(r.eflags))
            &&& r2 == (VMRegisters { eflags: r2.eflags, ..r })
        }),
{
    lemma_delivery_stack(m, r, int_num);
    let (m1, r1) = delivered(m, r, int_num);
    lemma_iret(m1, r1, word0(r.eip), word0(r.cs), word0(r.eflags));
}

/// The stack and the registers after delivery.
proof fn lemma_delivery_stack(m: State, r: VMRegisters, int_num: int)
    requires
        m.wf(),
        r.ss <= 0xffff,
        6 <= r.esp <= 0xffff,
        !(mem16(m.mem, int_num * 4 + 2) == 0x50 && mem16(m.mem, int_num * 4) == 0),
    ensures
        ({
            let (m1, r1) = delivered(m, r, int_num);
            &&& mem16(m1.mem, stack_address(r1)) == word0(r.eip)
            &&& mem16(m1.mem, stack_address(r1) + 2) == word0(r.cs)
            &&& mem16(m1.mem, stack_address(r1) + 4) == word0(r.eflags)
            &&& word0(r1.esp) == r.esp - 6
            &&& r1 == (VMRegisters { cs: r1.cs, eip: r1.eip, esp: r1.esp, ..r })
        }),
{
    let top = real_address(r.ss as int, r.esp - 2);
    lemma_delivered(m, r, int_num);
    let (m1, r1) = delivered(m, r, int_num);
    lemma_stack_at(r1, r.ss as int, r.esp - 6);
    lemma_three_words(m.mem, top, word0(r.eflags), word0(r.cs), word0(r.eip));
}

proof fn lemma_three_words(mem: Seq<u8>, top: int, a: u16, b: u16, c: u16)
    requires
        4 <= top,
        top + 2 <= mem.len(),
    ensures
        ({
            let m = put16(put16(put16(mem, top, a), top - 2, b), top - 4, c);
            mem16(m, top - 4) == c && mem16(m, top - 2) == b && mem16(m, top) == a
        }),
{
    let a1 = put16(mem, top, a);
    let a2 = put16(a1, top - 2, b);
    memory_words_are_independent(mem, top, a, top);
    memory_words_are_independent(a1, top - 2, b, top);
    memory_words_are_independent(a1, top - 2, b, top - 2);
    memory_words_are_independent(a2, top - 4, c, top);
    memory_words_are_independent(a2, top - 4, c, top - 2);
    memory_words_are_independent(a2, top - 4, c, top - 4);
}

proof fn lemma_stack_at(r: VMRegisters, ss: int, esp: int)
    requires
        r.ss == ss,
        r.esp == esp,
        0 <= esp <= 0xffff,
    ensures
        stack_address(r) == real_address(ss, esp),
        word0(r.esp) == esp,
{
}

proof fn lemma_iret(m: State, r: VMRegisters, ip: u16, cs: u16, flags: u16)
    requires
        m.mem[real_address(r.cs as int, r.eip as int)] == 0xcf,
        mem16(m.mem, stack_address(r)) == ip,
        mem16(m.mem, stack_address(r) + 2) == cs,
        mem16(m.mem, stack_address(r) + 4) == flags,
    ensures
        fault(m, r) == (
            m,
            VMRegisters {
                eip: ip as u32,
                cs: cs as u32,
                eflags: with_flags(r.eflags, flags),
                esp: (word0(r.esp) + 6) as u32,
                ..r
            },
            Fault::Continue,
        ),
{
    reveal(fault);
}

/// What delivery does, where the stack does not wrap.
proof fn lemma_delivered(m: State, r: VMRegisters, int_num: int)
    requires
        6 <= r.esp <= 0xffff,
        !(mem16(m.mem, int_num * 4 + 2) == 0x50 && mem16(m.mem, int_num * 4) == 0),
    ensures
        ({
            let top = real_address(r.ss as int, r.esp - 2);
            let a1 = put16(m.mem, top, word0(r.eflags));
            let a2 = put16(a1, top - 2, word0(r.cs));
            delivered(m, r, int_num) == (
                State { mem: put16(a2, top - 4, word0(r.eip)), ..m },
                VMRegisters {
                    cs: mem16(m.mem, int_num * 4 + 2) as u32,
                    eip: mem16(m.mem, int_num * 4) as u32,
                    esp: (r.esp - 6) as u32,
                    ..r
                },
            )
        }),
{
    reveal(delivered);
    lemma_pushed(m, r, word0(r.eflags));
    let (m1, r1) = pushed(m, r, word0(r.eflags));
    lemma_pushed(m1, r1, word0(r.cs));
    let (m2, r2) = pushed(m1, r1, word0(r.cs));
    lemma_pushed(m2, r2, word0(r.eip));
}

proof fn lemma_pushed(m: State, r: VMRegisters, v: u16)
    requires
        2 <= r.esp <= 0xffff,
    ensures
        pushed(m, r, v) == (
            State { mem: put16(m.mem, real_address(r.ss as int, r.esp - 2), v), ..m },
            VMRegisters { esp: (r.esp - 2) as u32, ..r },
        ),
{
}

/// Out of 1000 ticks of the clock, 182 are delivered: the count comes back to where
/// it was after every 1000 ticks.
pub proof fn timer_divides_evenly(accum: u32, n: nat)
    requires
        accum < 1000,
    ensures
        ticked(accum, n).0 < 1000,
        accum + 182 * n == ticked(accum, n).0 + 1000 * ticked(accum, n).1,
    decreases n,
{
    if n > 0 {
        timer_divides_evenly(accum, (n - 1) as nat);
    }
}

/// The count after `n` ticks of the clock, and the number of DOS ticks among them.
pub open spec fn ticked(accum: u32, n: nat) -> (u32, nat)
    decreases n,
{
    if n == 0 {
        (accum, 0)
    } else {
        let (a, k) = ticked(accum, (n - 1) as nat);
        let (b, due) = timer_tick(a);
        (b, if due { k + 1 } else { k })
    }
}

} // verus!
