//! The DOS Protected Mode Interface, version 0.9: entry to protected mode, and the
//! services of INT 31h and INT 2Fh.
use vstd::prelude::*;

use crate::api::compat::VMRegisters;
use crate::bits::{
    byte0, byte1, dword, high16, low16, make_dword, set_low16, set_low8, with_byte0, with_word0, word0,
    word1,
};
use crate::dos::arena::{
    arena_alloc, arena_free, arena_largest, arena_resize, high_block, high_slot,
};
use crate::dos::descriptors::{descriptor, no_descriptor, with_descriptor, LdtDescriptorParams};
use crate::dos::machine::{
    clear_carry, failed, mem16, mem32, put16, put32, real_address, set_carry, succeeded, HostCall,
    LogLine, Machine, Missing, Outcome, Pending, State, DPMI_ENTRY_OFFSET, DPMI_ENTRY_SEGMENT,
    DPMI_PM_STACK_SIZE, PSP_BASE,
};

verus! {

/// The result of a call that failed.
pub const FAILED: u32 = 0xffff_ffff;

/// A present data segment of the program, readable and writable.
pub open spec fn data_segment(base: u32, limit: u32) -> LdtDescriptorParams {
    LdtDescriptorParams { base, limit, access: 0xF2, flags: 0x40 }
}

/// A descriptor was set: the shadow remembers it, and the kernel is told.
pub open spec fn ldt_set(m: State, sel: u32, p: LdtDescriptorParams) -> State {
    State { ldt: with_descriptor(m.ldt, sel, p), ..m }
}

pub open spec fn ldt_cleared(m: State, sel: u32) -> State {
    State { ldt: with_descriptor(m.ldt, sel, no_descriptor()), ..m }
}

/// The limit of a descriptor, in pages where bytes do not reach.
pub open spec fn with_limit(p: LdtDescriptorParams, limit: u32) -> LdtDescriptorParams {
    if limit > 0xFFFFF {
        LdtDescriptorParams { limit: limit / 4096, flags: (p.flags & 0x7F) | 0x80, ..p }
    } else {
        LdtDescriptorParams { limit, flags: p.flags & 0x7F, ..p }
    }
}

/// The access rights of a descriptor; the privilege is always that of the program.
pub open spec fn with_access(p: LdtDescriptorParams, access: u8, kind: u8) -> LdtDescriptorParams {
    LdtDescriptorParams { access: (access & 0x9F) | 0x60, flags: kind & 0xF0, ..p }
}

/// A data segment over the same memory.
pub open spec fn alias_of(p: LdtDescriptorParams) -> LdtDescriptorParams {
    LdtDescriptorParams { access: (p.access & 0xF0) | 0x02, ..p }
}

/// The hardware interrupt behind an interrupt vector.
pub open spec fn hardware_irq(int_num: u8) -> Option<u32> {
    if 0x08 <= int_num <= 0x0F {
        Some((int_num - 0x08) as u32)
    } else if 0x70 <= int_num <= 0x77 {
        Some((int_num - 0x70 + 8) as u32)
    } else if int_num == 0x1C {
        Some(0)
    } else {
        None
    }
}

/// The interrupt mask after a vector was set by the program.
pub open spec fn hooked(mask: u32, int_num: u8) -> u32 {
    match hardware_irq(int_num) {
        Some(irq) => mask | (1u32 << irq),
        None => mask,
    }
}

/// A real-mode interrupt vector was set.
pub open spec fn vector_set(m: State, int_num: u8, segment: u16, offset: u16) -> State {
    State {
        mem: put16(put16(m.mem, int_num * 4, offset), int_num * 4 + 2, segment),
        irq_mask: hooked(m.irq_mask, int_num),
        ..m
    }
}

/// The registers in a real-mode call structure.
pub open spec fn call_registers(mem: Seq<u8>, a: int) -> VMRegisters {
    VMRegisters {
        edi: mem32(mem, a),
        esi: mem32(mem, a + 4),
        ebp: mem32(mem, a + 8),
        ebx: mem32(mem, a + 16),
        edx: mem32(mem, a + 20),
        ecx: mem32(mem, a + 24),
        eax: mem32(mem, a + 28),
        eflags: mem16(mem, a + 32) as u32,
        es: mem16(mem, a + 34) as u32,
        ds: mem16(mem, a + 36) as u32,
        fs: mem16(mem, a + 38) as u32,
        gs: mem16(mem, a + 40) as u32,
        eip: mem16(mem, a + 42) as u32,
        cs: mem16(mem, a + 44) as u32,
        esp: mem16(mem, a + 46) as u32,
        ss: mem16(mem, a + 48) as u32,
    }
}

/// Memory with the results of a call in its structure. Instruction pointer and
/// stack are left as they were.
pub open spec fn call_results(mem: Seq<u8>, a: int, r: VMRegisters) -> Seq<u8> {
    let m1 = put32(put32(put32(put32(mem, a + 28, r.eax), a + 16, r.ebx), a + 24, r.ecx), a + 20, r.edx);
    let m2 = put32(put32(put32(m1, a + 4, r.esi), a, r.edi), a + 8, r.ebp);
    let m3 = put16(put16(m2, a + 32, word0(r.eflags)), a + 34, word0(r.es));
    put16(put16(put16(m3, a + 36, word0(r.ds)), a + 38, word0(r.fs)), a + 40, word0(r.gs))
}

pub open spec fn done(m: State, regs: VMRegisters, calls: Seq<HostCall>) -> Outcome {
    Outcome { m, regs, calls }
}

/// A descriptor was changed and the service succeeded.
pub open spec fn changed(m: State, r: VMRegisters, sel: u32, p: LdtDescriptorParams) -> Outcome {
    done(ldt_set(m, sel, p), succeeded(r), seq![HostCall::LdtModify(sel, p)])
}

/// The services of INT 31h, by AX.
pub open spec fn int31(m: State, r: VMRegisters) -> Outcome {
    let ax = word0(r.eax);
    let bx = word0(r.ebx);
    let cx = word0(r.ecx);
    let dx = word0(r.edx);
    let sel = bx as u32;
    if ax == 0x0000 {
        // Allocate CX descriptors.
        if cx == 0 || cx > 16 {
            done(m, failed(r), Seq::empty())
        } else {
            done(
                State { pending: Pending::Descriptors(cx), pending_selectors: Seq::empty(), ..m }, r,
                seq![HostCall::LdtAllocate],
            )
        }
    } else if ax == 0x0001 {
        // Free descriptor BX.
        done(State { pending: Pending::FreeDescriptor(sel), ..m }, r, seq![HostCall::LdtFree(sel)])
    } else if ax == 0x0007 {
        // Set the base of segment BX to CX:DX.
        changed(m, r, sel, LdtDescriptorParams { base: dword(cx, dx), ..descriptor(m.ldt, sel) })
    } else if ax == 0x0008 {
        // Set the limit of segment BX to CX:DX.
        changed(m, r, sel, with_limit(descriptor(m.ldt, sel), dword(cx, dx)))
    } else if ax == 0x0009 {
        // Set the access rights of segment BX to CL and CH.
        changed(m, r, sel, with_access(descriptor(m.ldt, sel), byte0(r.ecx), byte1(r.ecx)))
    } else if ax == 0x000A {
        // Create a data alias of segment BX.
        done(
            State { pending: Pending::Alias(descriptor(m.ldt, sel)), ..m }, r,
            seq![HostCall::LdtAllocate],
        )
    } else if ax == 0x0100 {
        // Allocate BX paragraphs of DOS memory.
        match arena_alloc(m.arena, bx) {
            (arena, Some(segment)) => done(
                State { arena, pending: Pending::DosBlock(segment, bx), ..m },
                VMRegisters { eax: with_word0(r.eax, segment), ..r },
                seq![HostCall::LdtAllocate],
            ),
            (arena, None) => done(
                m,
                failed(VMRegisters { ebx: with_word0(r.ebx, arena_largest(m.arena)), ..r }),
                Seq::empty(),
            ),
        }
    } else if ax == 0x0101 {
        // Free the DOS memory block of selector DX.
        let segment = word0((descriptor(m.ldt, dx as u32).base / 16) as u32);
        match arena_free(m.arena, segment) {
            (arena, true) => done(
                ldt_cleared(State { arena, ..m }, dx as u32), succeeded(r),
                seq![HostCall::LdtFree(dx as u32)],
            ),
            _ => done(m, failed(r), Seq::empty()),
        }
    } else if ax == 0x0102 {
        // Resize the DOS memory block of selector DX to BX paragraphs.
        let p = descriptor(m.ldt, dx as u32);
        match arena_resize(m.arena, word0((p.base / 16) as u32), bx) {
            (arena, true) => changed(
                State { arena, ..m }, r, dx as u32,
                LdtDescriptorParams { limit: (bx * 16 - 1) as u32, ..p },
            ),
            _ => done(
                m,
                failed(VMRegisters { ebx: with_word0(r.ebx, arena_largest(m.arena)), ..r }),
                Seq::empty(),
            ),
        }
    } else if ax == 0x0501 {
        // Allocate BX:CX bytes of high memory.
        let size = dword(bx, cx);
        if size == 0 {
            done(m, failed(r), Seq::empty())
        } else {
            done(
                State { pending: Pending::HighBlock(whole_pages(size)), ..m }, r,
                seq![HostCall::MapMemory(whole_pages(size))],
            )
        }
    } else if ax == 0x0502 {
        // Free the high memory of handle SI:DI.
        let handle = dword(word0(r.esi), word0(r.edi));
        match high_block(m.high, handle) {
            Some((addr, size)) => done(
                State { high: m.high.update(handle - 1, (0, 0)), ..m }, succeeded(r),
                seq![HostCall::UnmapMemory(addr, size)],
            ),
            None => done(m, failed(r), Seq::empty()),
        }
    } else if ax == 0x0200 {
        // Get real-mode interrupt vector BL.
        let a = byte0(r.ebx) * 4;
        done(
            m,
            succeeded(
                VMRegisters {
                    ecx: with_word0(r.ecx, mem16(m.mem, a + 2)),
                    edx: with_word0(r.edx, mem16(m.mem, a)),
                    ..r
                },
            ),
            Seq::empty(),
        )
    } else if ax == 0x0201 {
        // Set real-mode interrupt vector BL to CX:DX.
        done(vector_set(m, byte0(r.ebx), cx, dx), succeeded(r), Seq::empty())
    } else if ax == 0x0300 {
        // Run real-mode interrupt BL with the registers at ES:EDI.
        let a = m.address(r.es, r.edi);
        done(
            State { dpmi_active: false, pending: Pending::Reflection(a as u32), ..m }, r,
            seq![HostCall::Reflect(byte0(r.ebx), call_registers(m.mem, a))],
        )
    } else {
        done(m, failed(r), seq![HostCall::Log(LogLine::Missing(Missing::DpmiService(ax)))])
    }
}

/// A size rounded up to whole pages.
pub open spec fn whole_pages(size: u32) -> u32 {
    ((size + 0xFFF) / 0x1000 * 0x1000) as u32
}

/// What a service needs to be answered: memory it points to is there, sizes are in
/// range, and a block that is resized keeps at least one paragraph.
pub open spec fn int31_ready(m: State, r: VMRegisters) -> bool {
    let ax = word0(r.eax);
    &&& ax == 0x0102 && word0(r.ebx) == 0 ==> {
        let base = descriptor(m.ldt, word0(r.edx) as u32).base;
        !arena_resize(m.arena, word0((base / 16) as u32), 0).1
    }
    &&& ax == 0x0501 ==> dword(word0(r.ebx), word0(r.ecx)) <= 0xFFFF_F000
    &&& ax == 0x0300 ==> m.reaches(r.es, r.edi, 50)
}

/// What the result of a call makes of a pending service.
pub open spec fn int31_reply(m: State, r: VMRegisters, result: u32) -> Outcome {
    let idle = State { pending: Pending::Nothing, ..m };
    match m.pending {
        Pending::Descriptors(count) => if result == FAILED {
            let (ldt, calls) = all_freed(m.ldt, m.pending_selectors);
            done(State { ldt, pending_selectors: Seq::empty(), ..idle }, failed(r), calls)
        } else {
            let sels = m.pending_selectors.push(result);
            let set = ldt_set(m, result, data_segment(0, 0));
            let modify = HostCall::LdtModify(result, data_segment(0, 0));
            if sels.len() >= count {
                done(
                    State { pending: Pending::Nothing, pending_selectors: Seq::empty(), ..set },
                    succeeded(VMRegisters { eax: with_word0(r.eax, word0(sels[0])), ..r }),
                    seq![modify],
                )
            } else {
                done(
                    State { pending_selectors: sels, ..set }, r,
                    seq![modify, HostCall::LdtAllocate],
                )
            }
        },
        Pending::FreeDescriptor(sel) => if result == FAILED {
            done(idle, failed(r), Seq::empty())
        } else {
            done(ldt_cleared(idle, sel), succeeded(r), Seq::empty())
        },
        Pending::Alias(source) => if result == FAILED {
            done(idle, failed(r), Seq::empty())
        } else {
            changed(
                idle, VMRegisters { eax: with_word0(r.eax, word0(result)), ..r }, result,
                alias_of(source),
            )
        },
        Pending::DosBlock(segment, paras) => {
            let named = succeeded(VMRegisters { edx: with_word0(r.edx, word0(result)), ..r });
            if result == FAILED {
                done(idle, named, Seq::empty())
            } else {
                let p = data_segment((segment * 16) as u32, (paras * 16 - 1) as u32);
                done(ldt_set(idle, result, p), named, seq![HostCall::LdtModify(result, p)])
            }
        },
        Pending::HighBlock(size) => if result == FAILED {
            done(idle, failed(r), Seq::empty())
        } else {
            match high_slot(m.high) {
                Some(i) => done(
                    State { high: m.high.update(i, (result, size)), ..idle },
                    succeeded(
                        VMRegisters {
                            ebx: with_word0(r.ebx, word1(result)),
                            ecx: with_word0(r.ecx, word0(result)),
                            esi: with_word0(r.esi, word1((i + 1) as u32)),
                            edi: with_word0(r.edi, word0((i + 1) as u32)),
                            ..r
                        },
                    ),
                    Seq::empty(),
                ),
                None => done(idle, failed(r), seq![HostCall::UnmapMemory(result, size)]),
            }
        },
        _ => done(m, r, Seq::empty()),
    }
}

/// The table and the calls after the descriptors were freed, first to last.
pub open spec fn all_freed(ldt: Seq<LdtDescriptorParams>, sels: Seq<u32>) -> (
    Seq<LdtDescriptorParams>,
    Seq<HostCall>,
)
    decreases sels.len(),
{
    if sels.len() == 0 {
        (ldt, Seq::empty())
    } else {
        let (t, calls) = all_freed(ldt, sels.drop_last());
        (with_descriptor(t, sels.last(), no_descriptor()), calls.push(HostCall::LdtFree(sels.last())))
    }
}

/// The pending service can take a result: a block that gets a selector has a paragraph, and
/// selectors are still wanted.
pub open spec fn reply_ready(m: State, result: u32) -> bool {
    match m.pending {
        Pending::DosBlock(_, paras) => paras > 0 || result == FAILED,
        Pending::Descriptors(count) => m.pending_selectors.len() < count <= 16,
        _ => true,
    }
}

fn one(call: HostCall) -> (r: Vec<HostCall>)
    ensures
        r@ == seq![call],
{
    let r: Vec<HostCall> = vec![call];
    assert(r@ =~= seq![call]);
    r
}

fn no_calls() -> (r: Vec<HostCall>)
    ensures
        r@ == Seq::<HostCall>::empty(),
{
    let r: Vec<HostCall> = Vec::new();
    assert(r@ =~= Seq::<HostCall>::empty());
    r
}

fn mark_hooked(mask: u32, int_num: u8) -> (r: u32)
    ensures
        r == hooked(mask, int_num),
{
    let irq: Option<u32> = if int_num >= 0x08 && int_num <= 0x0F {
        Some((int_num - 0x08) as u32)
    } else if int_num >= 0x70 && int_num <= 0x77 {
        Some((int_num - 0x70 + 8) as u32)
    } else if int_num == 0x1C {
        Some(0)
    } else {
        None
    };
    match irq {
        Some(n) => mask | (1u32 << n),
        None => mask,
    }
}

impl Machine {
    /// Set a real-mode interrupt vector, and note the hardware interrupt behind it.
    pub fn set_vector(&mut self, int_num: u8, segment: u16, offset: u16)
        requires
            old(self).wf(),
        ensures
            final(self)@ == vector_set(old(self)@, int_num, segment, offset),
            final(self).wf(),
    {
        let a: u32 = int_num as u32 * 4;
        self.write16(a, offset);
        self.write16(a + 2, segment);
        self.irq_mask = mark_hooked(self.irq_mask, int_num);
    }

    fn change_descriptor(&mut self, regs: &mut VMRegisters, sel: u32, p: LdtDescriptorParams) -> (r: Vec<
        HostCall,
    >)
        requires
            old(self).wf(),
        ensures
            final(self).wf(),
            done(final(self)@, *final(regs), r@) == changed(old(self)@, *old(regs), sel, p),
    {
        self.ldt.dpmi_ldt_write(sel, &p);
        clear_carry(regs);
        one(HostCall::LdtModify(sel, p))
    }

    /// Whether a service can be carried out: a size can be told, and the memory that the
    /// service points to is there.
    pub fn dpmi_int31_ready(&self, regs: &VMRegisters) -> (r: bool)
        requires
            self.wf(),
        ensures
            r == int31_ready(self@, *regs),
    {
        match low16(regs.eax) {
            0x0102 => {
                let base: u32 = self.ldt.dpmi_ldt_read(low16(regs.edx) as u32).base;
                low16(regs.ebx) > 0 || !self.arena.dos_arena_can_resize(low16(base / 16), 0)
            },
            0x0501 => make_dword(low16(regs.ebx), low16(regs.ecx)) <= 0xFFFF_F000,
            0x0300 => self.can_address(regs.es, regs.edi, 50),
            _ => true,
        }
    }

    /// Serve INT 31h. Returns the calls to make; the result of the last one is
    /// handed to `dpmi_reply` while a service is pending.
    #[verifier::rlimit(40)]
    pub fn dpmi_int31(&mut self, regs: &mut VMRegisters) -> (r: Vec<HostCall>)
        requires
            old(self).wf(),
            int31_ready(old(self)@, *old(regs)),
        ensures
            final(self).wf(),
            done(final(self)@, *final(regs), r@) == int31(old(self)@, *old(regs)),
    {
        let ax: u16 = low16(regs.eax);
        let bx: u16 = low16(regs.ebx);
        let cx: u16 = low16(regs.ecx);
        let dx: u16 = low16(regs.edx);
        let sel: u32 = bx as u32;
        match ax {
            0x0000 => {
                if cx == 0 || cx > 16 {
                    set_carry(regs);
                    return no_calls();
                }
                self.pending = Pending::Descriptors(cx);
                self.pending_selectors = Vec::new();
                assert(self@.pending_selectors =~= Seq::empty());
                one(HostCall::LdtAllocate)
            }
            0x0001 => {
                self.pending = Pending::FreeDescriptor(sel);
                one(HostCall::LdtFree(sel))
            }
            0x0007 => {
                let mut p: LdtDescriptorParams = self.ldt.dpmi_ldt_read(sel);
                p.base = make_dword(cx, dx);
                self.change_descriptor(regs, sel, p)
            }
            0x0008 => {
                let mut p: LdtDescriptorParams = self.ldt.dpmi_ldt_read(sel);
                let limit: u32 = make_dword(cx, dx);
                if limit > 0xFFFFF {
                    p.limit = limit / 4096;
                    p.flags = (p.flags & 0x7F) | 0x80;
                } else {
                    p.limit = limit;
                    p.flags = p.flags & 0x7F;
                }
                self.change_descriptor(regs, sel, p)
            }
            0x0009 => {
                let mut p: LdtDescriptorParams = self.ldt.dpmi_ldt_read(sel);
                p.access = (regs.cl() & 0x9F) | 0x60;
                p.flags = regs.ch() & 0xF0;
                self.change_descriptor(regs, sel, p)
            }
            0x000A => {
                self.pending = Pending::Alias(self.ldt.dpmi_ldt_read(sel));
                one(HostCall::LdtAllocate)
            }
            0x0100 => self.int31_allocate_dos(regs, bx),
            0x0101 => {
                let p: LdtDescriptorParams = self.ldt.dpmi_ldt_read(dx as u32);
                let segment: u16 = low16(p.base / 16);
                if self.arena.dos_arena_free(segment) {
                    self.ldt.dpmi_ldt_clear(dx as u32);
                    clear_carry(regs);
                    one(HostCall::LdtFree(dx as u32))
                } else {
                    set_carry(regs);
                    no_calls()
                }
            }
            0x0102 => {
                let mut p: LdtDescriptorParams = self.ldt.dpmi_ldt_read(dx as u32);
                let segment: u16 = low16(p.base / 16);
                if self.arena.dos_arena_resize(segment, bx) {
                    p.limit = bx as u32 * 16 - 1;
                    self.change_descriptor(regs, dx as u32, p)
                } else {
                    regs.ebx = set_low16(regs.ebx, self.arena.dos_arena_largest());
                    set_carry(regs);
                    no_calls()
                }
            }
            0x0501 => {
                let size: u32 = make_dword(bx, cx);
                if size == 0 {
                    set_carry(regs);
                    return no_calls();
                }
                let alloc_size: u32 = (size + 0xFFF) / 0x1000 * 0x1000;
                self.pending = Pending::HighBlock(alloc_size);
                one(HostCall::MapMemory(alloc_size))
            }
            0x0502 => {
                let handle: u32 = make_dword(low16(regs.esi), low16(regs.edi));
                match self.high.dpmi_high_mem_free(handle) {
                    Some((addr, size)) => {
                        clear_carry(regs);
                        one(HostCall::UnmapMemory(addr, size))
                    }
                    None => {
                        set_carry(regs);
                        no_calls()
                    }
                }
            }
            0x0200 => {
                let a: u32 = regs.bl() as u32 * 4;
                regs.ecx = set_low16(regs.ecx, self.read16(a + 2));
                regs.edx = set_low16(regs.edx, self.read16(a));
                clear_carry(regs);
                no_calls()
            }
            0x0201 => {
                self.set_vector(regs.bl(), cx, dx);
                clear_carry(regs);
                no_calls()
            }
            0x0300 => {
                let a: u32 = self.resolve_ptr(regs.es, regs.edi);
                let vm: VMRegisters = self.read_call_registers(a);
                self.dpmi_active = false;
                self.pending = Pending::Reflection(a);
                one(HostCall::Reflect(regs.bl(), vm))
            }
            _ => {
                set_carry(regs);
                one(HostCall::Log(LogLine::Missing(Missing::DpmiService(ax))))
            }
        }
    }

    fn int31_allocate_dos(&mut self, regs: &mut VMRegisters, paras: u16) -> (r: Vec<HostCall>)
        requires
            old(self).wf(),
            word0(old(regs).eax) == 0x0100,
            paras == word0(old(regs).ebx),
        ensures
            final(self).wf(),
            done(final(self)@, *final(regs), r@) == int31(old(self)@, *old(regs)),
    {
        match self.arena.dos_arena_alloc(paras) {
            Some(segment) => {
                regs.set_ax(segment);
                self.pending = Pending::DosBlock(segment, paras);
                one(HostCall::LdtAllocate)
            }
            None => {
                regs.ebx = set_low16(regs.ebx, self.arena.dos_arena_largest());
                set_carry(regs);
                no_calls()
            }
        }
    }

    fn read_call_registers(&self, a: u32) -> (r: VMRegisters)
        requires
            self.wf(),
            a + 50 <= self.mem@.len(),
        ensures
            r == call_registers(self@.mem, a as int),
    {
        VMRegisters {
            edi: self.read32(a),
            esi: self.read32(a + 4),
            ebp: self.read32(a + 8),
            ebx: self.read32(a + 16),
            edx: self.read32(a + 20),
            ecx: self.read32(a + 24),
            eax: self.read32(a + 28),
            eflags: self.read16(a + 32) as u32,
            es: self.read16(a + 34) as u32,
            ds: self.read16(a + 36) as u32,
            fs: self.read16(a + 38) as u32,
            gs: self.read16(a + 40) as u32,
            eip: self.read16(a + 42) as u32,
            cs: self.read16(a + 44) as u32,
            esp: self.read16(a + 46) as u32,
            ss: self.read16(a + 48) as u32,
        }
    }

    /// Finish a simulated interrupt: its registers go back to the structure, and
    /// the program is in protected mode again.
    pub fn dpmi_reflected(&mut self, regs: &mut VMRegisters, vm: &VMRegisters)
        requires
            old(self).wf(),
            old(self).pending matches Pending::Reflection(a) ==> a + 50 <= old(self).mem@.len(),
        ensures
            final(self).wf(),
            old(self).pending matches Pending::Reflection(a) ==> *final(regs) == succeeded(*old(regs))
                && final(self)@ == (State {
                mem: call_results(old(self)@.mem, a as int, *vm),
                dpmi_active: true,
                pending: Pending::Nothing,
                ..old(self)@
            }),
            !(old(self).pending is Reflection) ==> final(self)@ == old(self)@ && *final(regs) == *old(
                regs,
            ),
    {
        match self.pending {
            Pending::Reflection(a) => {
                self.write32(a + 28, vm.eax);
                self.write32(a + 16, vm.ebx);
                self.write32(a + 24, vm.ecx);
                self.write32(a + 20, vm.edx);
                self.write32(a + 4, vm.esi);
                self.write32(a, vm.edi);
                self.write32(a + 8, vm.ebp);
                self.write16(a + 32, low16(vm.eflags));
                self.write16(a + 34, low16(vm.es));
                self.write16(a + 36, low16(vm.ds));
                self.write16(a + 38, low16(vm.fs));
                self.write16(a + 40, low16(vm.gs));
                self.dpmi_active = true;
                self.pending = Pending::Nothing;
                clear_carry(regs);
            }
            _ => {}
        }
    }

    /// Whether the service that waits can take a result.
    pub fn dpmi_reply_ready(&self, result: u32) -> (r: bool)
        ensures
            r == reply_ready(self@, result),
    {
        match self.pending {
            Pending::DosBlock(_, paras) => paras > 0 || result == FAILED,
            Pending::Descriptors(count) => self.pending_selectors.len() < count as usize && count
                <= 16,
            _ => true,
        }
    }

    /// Hand the result of a call to the service that waits for it. Returns the
    /// calls to make next.
    #[verifier::rlimit(40)]
    pub fn dpmi_reply(&mut self, regs: &mut VMRegisters, result: u32) -> (r: Vec<HostCall>)
        requires
            old(self).wf(),
            reply_ready(old(self)@, result),
        ensures
            final(self).wf(),
            done(final(self)@, *final(regs), r@) == int31_reply(old(self)@, *old(regs), result),
    {
        match self.pending {
            Pending::Descriptors(count) => self.reply_descriptor(regs, count, result),
            Pending::FreeDescriptor(sel) => {
                self.pending = Pending::Nothing;
                if result == FAILED {
                    set_carry(regs);
                } else {
                    self.ldt.dpmi_ldt_clear(sel);
                    clear_carry(regs);
                }
                no_calls()
            }
            Pending::Alias(source) => {
                self.pending = Pending::Nothing;
                if result == FAILED {
                    set_carry(regs);
                    return no_calls();
                }
                let p: LdtDescriptorParams =
                    LdtDescriptorParams { access: (source.access & 0xF0) | 0x02, ..source };
                regs.set_ax(low16(result));
                self.change_descriptor(regs, result, p)
            }
            Pending::DosBlock(segment, paras) => {
                self.pending = Pending::Nothing;
                regs.set_dx(low16(result));
                clear_carry(regs);
                if result != FAILED {
                    let p: LdtDescriptorParams = LdtDescriptorParams {
                        base: segment as u32 * 16,
                        limit: paras as u32 * 16 - 1,
                        access: 0xF2,
                        flags: 0x40,
                    };
                    self.ldt.dpmi_ldt_write(result, &p);
                    one(HostCall::LdtModify(result, p))
                } else {
                    no_calls()
                }
            }
            Pending::HighBlock(size) => {
                self.pending = Pending::Nothing;
                if result == FAILED {
                    set_carry(regs);
                    return no_calls();
                }
                match self.high.dpmi_high_mem_record(result, size) {
                    Some(handle) => {
                        regs.ebx = set_low16(regs.ebx, high16(result));
                        regs.ecx = set_low16(regs.ecx, low16(result));
                        regs.esi = set_low16(regs.esi, high16(handle));
                        regs.edi = set_low16(regs.edi, low16(handle));
                        clear_carry(regs);
                        no_calls()
                    }
                    None => {
                        set_carry(regs);
                        one(HostCall::UnmapMemory(result, size))
                    }
                }
            }
            _ => no_calls(),
        }
    }

    fn reply_descriptor(&mut self, regs: &mut VMRegisters, count: u16, result: u32) -> (r: Vec<HostCall>)
        requires
            old(self).wf(),
            reply_ready(old(self)@, result),
            old(self).pending == Pending::Descriptors(count),
        ensures
            final(self).wf(),
            done(final(self)@, *final(regs), r@) == int31_reply(old(self)@, *old(regs), result),
    {
        let ghost m = self@;
        if result == FAILED {
            let mut sels: Vec<u32> = Vec::new();
            core::mem::swap(&mut sels, &mut self.pending_selectors);
            let mut calls: Vec<HostCall> = no_calls();
            let mut j: usize = 0;
            assert(sels@.subrange(0, 0) =~= Seq::empty());
            while j < sels.len()
                invariant
                    j <= sels@.len(),
                    sels@ == m.pending_selectors,
                    self.wf(),
                    self@ == (State { ldt: self@.ldt, pending_selectors: self@.pending_selectors, ..m }),
                    self@.pending_selectors =~= Seq::empty(),
                    (self@.ldt, calls@) == all_freed(m.ldt, sels@.subrange(0, j as int)),
                decreases sels@.len() - j,
            {
                assert(sels@.subrange(0, j + 1).drop_last() =~= sels@.subrange(0, j as int));
                self.ldt.dpmi_ldt_clear(sels[j]);
                calls.push(HostCall::LdtFree(sels[j]));
                j += 1;
            }
            assert(sels@.subrange(0, sels@.len() as int) =~= sels@);
            self.pending = Pending::Nothing;
            set_carry(regs);
            return calls;
        }
        let p: LdtDescriptorParams = LdtDescriptorParams { base: 0, limit: 0, access: 0xF2, flags: 0x40 };
        self.pending_selectors.push(result);
        self.ldt.dpmi_ldt_write(result, &p);
        if self.pending_selectors.len() >= count as usize {
            regs.set_ax(low16(self.pending_selectors[0]));
            clear_carry(regs);
            self.pending = Pending::Nothing;
            self.pending_selectors = Vec::new();
            assert(self@.pending_selectors =~= Seq::empty());
            one(HostCall::LdtModify(result, p))
        } else {
            let calls: Vec<HostCall> = vec![HostCall::LdtModify(result, p), HostCall::LdtAllocate];
            assert(calls@ =~= seq![HostCall::LdtModify(result, p), HostCall::LdtAllocate]);
            calls
        }
    }
}

/// A pending allocation of `count` descriptors ends after `count` successful calls:
/// the last reply gives the first selector in AX, and all descriptors are set.
pub proof fn allocation_ends_with_first_selector(m: State, r: VMRegisters, count: u16, sels: Seq<u32>)
    requires
        m.pending == Pending::Descriptors(count),
        m.pending_selectors == sels.drop_last(),
        sels.len() == count,
        1 <= count <= 16,
        sels.last() != FAILED,
    ensures
        ({
            let o = int31_reply(m, r, sels.last());
            &&& o.m.pending == Pending::Nothing
            &&& word0(o.regs.eax) == word0(sels[0])
            &&& o.calls == seq![HostCall::LdtModify(sels.last(), data_segment(0, 0))]
        }),
{
    assert(sels.drop_last().push(sels.last()) =~= sels);
    crate::bits::lemma_parts_independent(r.eax, 0, word0(sels[0]));
}

/// A failed allocation leaves no descriptor of the request in the shadow table.
pub proof fn failed_allocation_clears_all(ldt: Seq<LdtDescriptorParams>, sels: Seq<u32>, i: int)
    requires
        ldt.len() == 64,
        0 <= i < sels.len(),
    ensures
        all_freed(ldt, sels).0.len() == 64,
        descriptor(all_freed(ldt, sels).0, sels[i]) == no_descriptor(),
        all_freed(ldt, sels).1.len() == sels.len(),
        all_freed(ldt, sels).1[i] == HostCall::LdtFree(sels[i]),
    decreases sels.len(),
{
    lemma_freed_len(ldt, sels.drop_last());
    if i < sels.len() - 1 {
        failed_allocation_clears_all(ldt, sels.drop_last(), i);
        assert(sels.drop_last()[i] == sels[i]);
    }
}

proof fn lemma_freed_len(ldt: Seq<LdtDescriptorParams>, sels: Seq<u32>)
    requires
        ldt.len() == 64,
    ensures
        all_freed(ldt, sels).0.len() == 64,
        all_freed(ldt, sels).1.len() == sels.len(),
    decreases sels.len(),
{
    if sels.len() > 0 {
        lemma_freed_len(ldt, sels.drop_last());
    }
}

/// The return address that the far call to the entry point left on the stack:
/// offset and segment.
pub open spec fn far_return(m: State, r: VMRegisters) -> (u16, u16) {
    let a = real_address(word0(r.ss) as int, word0(r.esp) as int);
    (mem16(m.mem, a), mem16(m.mem, a + 2))
}

/// The four descriptors of a program that enters protected mode: its code and data
/// segments as they were, a flat stack, and its prefix.
pub open spec fn entry_descriptors(m: State, r: VMRegisters) -> (
    LdtDescriptorParams,
    LdtDescriptorParams,
    LdtDescriptorParams,
    LdtDescriptorParams,
) {
    (
        LdtDescriptorParams {
            base: (far_return(m, r).1 * 16) as u32, limit: 0xFFFF, access: 0xFA, flags: 0x40,
        },
        data_segment((word0(r.ds) * 16) as u32, 0xFFFF),
        LdtDescriptorParams { base: 0, limit: 0xFFFFF, access: 0xF2, flags: 0xC0 },
        data_segment(PSP_BASE, 0xFF),
    )
}

/// The registers with which a program continues in protected mode.
pub open spec fn entry_registers(
    m: State, r: VMRegisters, cs: u32, ds: u32, ss: u32, es: u32, stack: u32,
) -> VMRegisters {
    VMRegisters {
        eip: far_return(m, r).0 as u32,
        cs,
        eflags: 0x200,
        esp: (stack + 0x4000) as u32,
        ss,
        es,
        ds,
        fs: 0,
        gs: 0,
        ..r
    }
}

pub open spec fn log(line: LogLine) -> HostCall {
    HostCall::Log(line)
}

/// A program calls the entry point.
pub open spec fn enter(m: State, r: VMRegisters) -> Outcome {
    if r.eax & 1 != 0 {
        done(
            State { pending: Pending::EnterSelectors, ..m }, r,
            seq![
                log(LogLine::EnteringProtectedMode), HostCall::LdtAllocate, HostCall::LdtAllocate,
                HostCall::LdtAllocate, HostCall::LdtAllocate,
            ],
        )
    } else {
        done(
            m, failed(r),
            seq![log(LogLine::EnteringProtectedMode), log(LogLine::NoSixteenBitClients)],
        )
    }
}

/// The four selectors are there, or some are not.
pub open spec fn enter_selectors(m: State, r: VMRegisters, cs: u32, ds: u32, ss: u32, es: u32) -> Outcome {
    if cs == FAILED || ds == FAILED || ss == FAILED || es == FAILED {
        done(
            State { pending: Pending::Nothing, ..m }, failed(r), seq![log(LogLine::NoSelectors)],
        )
    } else {
        let (c, d, s, e) = entry_descriptors(m, r);
        let set = ldt_set(ldt_set(ldt_set(ldt_set(m, cs, c), ds, d), ss, s), es, e);
        done(
            State { pending: Pending::EnterStack(cs, ds, ss, es), ..set }, r,
            seq![
                HostCall::LdtModify(cs, c), HostCall::LdtModify(ds, d), HostCall::LdtModify(ss, s),
                HostCall::LdtModify(es, e), HostCall::MapMemory(DPMI_PM_STACK_SIZE),
            ],
        )
    }
}

impl Machine {
    /// Enter protected mode, on a call of the entry point. Bit 0 of AX tells that
    /// the program is a 32-bit one; others are turned away. The selectors that the
    /// calls return go to `dpmi_enter_selectors`.
    pub fn dpmi_enter(&mut self, regs: &mut VMRegisters) -> (r: Vec<HostCall>)
        requires
            old(self).wf(),
        ensures
            final(self).wf(),
            done(final(self)@, *final(regs), r@) == enter(old(self)@, *old(regs)),
    {
        if regs.eax & 1 == 0 {
            set_carry(regs);
            let calls: Vec<HostCall> = vec![
                HostCall::Log(LogLine::EnteringProtectedMode),
                HostCall::Log(LogLine::NoSixteenBitClients),
            ];
            assert(calls@ =~= enter(old(self)@, *old(regs)).calls);
            return calls;
        }
        self.pending = Pending::EnterSelectors;
        let calls: Vec<HostCall> = vec![
            HostCall::Log(LogLine::EnteringProtectedMode),
            HostCall::LdtAllocate,
            HostCall::LdtAllocate,
            HostCall::LdtAllocate,
            HostCall::LdtAllocate,
        ];
        assert(calls@ =~= enter(old(self)@, *old(regs)).calls);
        calls
    }

    /// The selectors for code, data, stack and extra segment: set up their
    /// descriptors and ask for a stack. The result goes to `dpmi_enter_stack`.
    pub fn dpmi_enter_selectors(
        &mut self, regs: &mut VMRegisters, cs_sel: u32, ds_sel: u32, ss_sel: u32, es_sel: u32,
    ) -> (r: Vec<HostCall>)
        requires
            old(self).wf(),
            old(self).pending is EnterSelectors,
        ensures
            final(self).wf(),
            done(final(self)@, *final(regs), r@) == enter_selectors(
                old(self)@, *old(regs), cs_sel, ds_sel, ss_sel, es_sel,
            ),
    {
        if cs_sel == FAILED || ds_sel == FAILED || ss_sel == FAILED || es_sel == FAILED {
            self.pending = Pending::Nothing;
            set_carry(regs);
            return one(HostCall::Log(LogLine::NoSelectors));
        }
        let stack: u32 = low16(regs.ss) as u32 * 16 + low16(regs.esp) as u32;
        let ret_cs: u16 = self.read16(stack + 2);
        let c: LdtDescriptorParams = LdtDescriptorParams {
            base: ret_cs as u32 * 16, limit: 0xFFFF, access: 0xFA, flags: 0x40,
        };
        let d: LdtDescriptorParams = LdtDescriptorParams {
            base: low16(regs.ds) as u32 * 16, limit: 0xFFFF, access: 0xF2, flags: 0x40,
        };
        let s: LdtDescriptorParams = LdtDescriptorParams {
            base: 0, limit: 0xFFFFF, access: 0xF2, flags: 0xC0,
        };
        let e: LdtDescriptorParams = LdtDescriptorParams {
            base: PSP_BASE, limit: 0xFF, access: 0xF2, flags: 0x40,
        };
        self.ldt.dpmi_ldt_write(cs_sel, &c);
        self.ldt.dpmi_ldt_write(ds_sel, &d);
        self.ldt.dpmi_ldt_write(ss_sel, &s);
        self.ldt.dpmi_ldt_write(es_sel, &e);
        self.pending = Pending::EnterStack(cs_sel, ds_sel, ss_sel, es_sel);
        let calls: Vec<HostCall> = vec![
            HostCall::LdtModify(cs_sel, c),
            HostCall::LdtModify(ds_sel, d),
            HostCall::LdtModify(ss_sel, s),
            HostCall::LdtModify(es_sel, e),
            HostCall::MapMemory(DPMI_PM_STACK_SIZE),
        ];
        assert(calls@ =~= enter_selectors(
            old(self)@, *old(regs), cs_sel, ds_sel, ss_sel, es_sel,
        ).calls);
        calls
    }

    /// The stack for protected mode is mapped, or is not. Returns the registers with
    /// which the program continues in protected mode, or the calls to make where it
    /// does not.
    pub fn dpmi_enter_stack(&mut self, regs: &mut VMRegisters, result: u32) -> (r: Result<
        VMRegisters,
        Vec<HostCall>,
    >)
        requires
            old(self).wf(),
            old(self).pending is EnterStack,
            result != FAILED ==> result + 0x4000 <= u32::MAX,
        ensures
            final(self).wf(),
            result == FAILED || result == 0 ==> {
                &&& r matches Err(calls) && calls@ == seq![log(LogLine::NoProtectedStack)]
                &&& *final(regs) == failed(*old(regs))
                &&& final(self)@ == (State { pending: Pending::Nothing, ..old(self)@ })
            },
            result != FAILED && result != 0 ==> {
                &&& *final(regs) == *old(regs)
                &&& old(self).pending matches Pending::EnterStack(cs, ds, ss, es)
                &&& r == Ok::<VMRegisters, Vec<HostCall>>(
                    entry_registers(old(self)@, *old(regs), cs, ds, ss, es, result),
                )
                &&& final(self)@ == (State {
                    pending: Pending::Nothing,
                    dpmi_active: true,
                    cs_sel: cs,
                    ds_sel: ds,
                    ss_sel: ss,
                    es_sel: es,
                    pm_stack_base: result,
                    ..old(self)@
                })
            },
    {
        let (cs, ds, ss, es): (u32, u32, u32, u32) = match self.pending {
            Pending::EnterStack(a, b, c, d) => (a, b, c, d),
            _ => (0, 0, 0, 0),
        };
        self.pending = Pending::Nothing;
        if result == FAILED || result == 0 {
            set_carry(regs);
            return Err(one(HostCall::Log(LogLine::NoProtectedStack)));
        }
        let stack: u32 = low16(regs.ss) as u32 * 16 + low16(regs.esp) as u32;
        let ret_ip: u16 = self.read16(stack);
        self.cs_sel = cs;
        self.ds_sel = ds;
        self.ss_sel = ss;
        self.es_sel = es;
        self.pm_stack_base = result;
        self.dpmi_active = true;
        Ok(
            VMRegisters {
                eip: ret_ip as u32,
                cs,
                eflags: 0x200,
                esp: result + DPMI_PM_STACK_SIZE,
                ss,
                es,
                ds,
                fs: 0,
                gs: 0,
                ..*regs
            },
        )
    }

    /// INT 2Fh: tell programs of the protected-mode services.
    pub fn multiplex_int(&mut self, regs: &mut VMRegisters) -> (r: Vec<HostCall>)
        requires
            old(self).wf(),
        ensures
            final(self)@ == old(self)@,
            final(self).wf(),
            word0(old(regs).eax) == 0x1687 ==> r@.len() == 0 && *final(regs) == dpmi_detected(*old(regs)),
            word0(old(regs).eax) != 0x1687 ==> *final(regs) == *old(regs) && r@ == seq![
                log(LogLine::Missing(Missing::Multiplex(byte1(old(regs).eax)))),
            ],
    {
        if low16(regs.eax) == 0x1687 {
            regs.set_ax(0);
            regs.ebx = set_low16(regs.ebx, 0x0001);
            regs.ecx = set_low8(regs.ecx, 0x04);
            regs.set_dx(0x005A);
            regs.esi = set_low16(regs.esi, 0x400);
            regs.es = DPMI_ENTRY_SEGMENT as u32;
            regs.edi = set_low16(regs.edi, DPMI_ENTRY_OFFSET);
            no_calls()
        } else {
            one(HostCall::Log(LogLine::Missing(Missing::Multiplex(regs.ah()))))
        }
    }
}

/// The answer to a program that looks for protected-mode services: available, for
/// 32-bit programs, on a 486, version 0.90, with a private area of 0x400
/// paragraphs, entered at the stub.
pub open spec fn dpmi_detected(r: VMRegisters) -> VMRegisters {
    VMRegisters {
        eax: with_word0(r.eax, 0),
        ebx: with_word0(r.ebx, 0x0001),
        ecx: with_byte0(r.ecx, 0x04),
        edx: with_word0(r.edx, 0x005A),
        esi: with_word0(r.esi, 0x400),
        es: DPMI_ENTRY_SEGMENT as u32,
        edi: with_word0(r.edi, DPMI_ENTRY_OFFSET),
        ..r
    }
}

/// Where an interrupt from protected mode goes.
#[derive(Clone, Copy, PartialEq, Eq, Structural, Debug)]
pub enum PmInterrupt {
    /// The program ends.
    Stop,
    /// The DOS services.
    DosApi,
    /// The protected-mode services.
    Services,
    /// Nobody serves it: log and continue.
    Missing(LogLine),
}

/// INT 21h goes to DOS, but ends the program with AH=4Ch; INT 31h is the
/// protected-mode services.
pub fn dpmi_handle_int(int_num: u8, regs: &VMRegisters) -> (r: PmInterrupt)
    ensures
        r == (if int_num == 0x21 && byte1(regs.eax) == 0x4C {
            PmInterrupt::Stop
        } else if int_num == 0x21 {
            PmInterrupt::DosApi
        } else if int_num == 0x31 {
            PmInterrupt::Services
        } else {
            PmInterrupt::Missing(LogLine::Missing(Missing::DpmiInterrupt(int_num)))
        }),
{
    match int_num {
        0x21 => if regs.ah() == 0x4C { PmInterrupt::Stop } else { PmInterrupt::DosApi },
        0x31 => PmInterrupt::Services,
        _ => PmInterrupt::Missing(LogLine::Missing(Missing::DpmiInterrupt(int_num))),
    }
}

/// The parts of the reason for which protected mode was left: its kind in the low
/// byte, and an interrupt number or error code in the high word.
pub fn exit_reason_parts(reason: u32) -> (r: (u8, u8))
    ensures
        r == (byte0(reason), byte0(word1(reason) as u32)),
{
    ((reason % 0x100) as u8, ((reason / 0x1_0000) % 0x100) as u8)
}

/// Why protected mode was left.
#[derive(Clone, Copy, PartialEq, Eq, Structural, Debug)]
pub enum PmExit {
    /// An interrupt is to be served.
    Interrupt(u8),
    /// Log the line; the program is over.
    Stop(LogLine),
}

/// The meaning of the reason for which protected mode was left. The numbers of the two
/// kinds of reason, interrupts and faults, are the system's.
pub fn dpmi_protected_mode_loop(reason: u32, interrupt_kind: u8, fault_kind: u8) -> (r: PmExit)
    ensures
        r == (if byte0(reason) == interrupt_kind {
            PmExit::Interrupt(byte0(word1(reason) as u32))
        } else if byte0(reason) == fault_kind {
            PmExit::Stop(LogLine::Missing(Missing::DpmiFault(byte0(word1(reason) as u32))))
        } else {
            PmExit::Stop(LogLine::UnknownExit)
        }),
{
    let (kind, detail): (u8, u8) = exit_reason_parts(reason);
    if kind == interrupt_kind {
        PmExit::Interrupt(detail)
    } else if kind == fault_kind {
        PmExit::Stop(LogLine::Missing(Missing::DpmiFault(detail)))
    } else {
        PmExit::Stop(LogLine::UnknownExit)
    }
}

/// Once a program is in protected mode, its data pointers go through the descriptor
/// that was made for its data segment, and reach the same memory as before.
pub proof fn entry_keeps_data_addresses(m: State, r: VMRegisters, cs: u32, ds: u32, ss: u32, es: u32, offset: u32)
    requires
        m.wf(),
        !m.dpmi_active,
        r.ds <= 0xffff,
        offset <= 0xffff,
        crate::dos::descriptors::shadowed(ds),
        cs != FAILED && ds != FAILED && ss != FAILED && es != FAILED,
        ss / 8 != ds / 8,
        es / 8 != ds / 8,
    ensures
        ({
            let after = enter_selectors(m, r, cs, ds, ss, es).m;
            (State { dpmi_active: true, ..after }).address(ds, offset) == m.address(r.ds, offset)
        }),
{
}

} // verus!
