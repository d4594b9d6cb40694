//! What holds of programs in protected mode: segments, blocks of memory and interrupts.
use vstd::prelude::*;

use crate::api::compat::VMRegisters;
use crate::bits::word0;
use crate::dos::arena::{arena_alloc, arena_free};
use crate::dos::descriptors::{descriptor, shadowed, LdtDescriptorParams};
use crate::dos::dpmi::{
    alias_of, hardware_irq, hooked, int31, int31_reply, whole_pages, with_limit, FAILED,
};
use crate::dos::laws::carry;
use crate::dos::machine::{HostCall, Pending, State};

verus! {

proof fn lemma_granularity(flags: u8)
    by (bit_vector)
    ensures
        (flags & 0x7F) / 0x80 == 0,
        ((flags & 0x7F) | 0x80) / 0x80 == 1,
        (flags & 0x7F) % 0x80 == flags % 0x80,
        ((flags & 0x7F) | 0x80) % 0x80 == flags % 0x80,
{
}

/// The last byte of a segment is the one that was set, or the last of its page where the limit is too
/// large to be counted in bytes. The top flag says which of the two.
pub proof fn segments_end_at_their_limit(p: LdtDescriptorParams, limit: u32)
    ensures
        ({
            let q = with_limit(p, limit);
            let last = if q.flags / 0x80 == 1 { q.limit * 4096 + 4095 } else { q.limit as int };
            &&& limit <= 0xFFFFF ==> last == limit
            &&& limit > 0xFFFFF ==> last == limit as int / 4096 * 4096 + 4095
            &&& q.limit <= 0xFFFFF
            &&& q.base == p.base && q.access == p.access && q.flags % 0x80 == p.flags % 0x80
        }),
{
    lemma_granularity(p.flags);
}

/// An alias is a data segment over the same memory.
pub proof fn aliases_lie_over_the_same_memory(p: LdtDescriptorParams)
    ensures
        alias_of(p).base == p.base,
        alias_of(p).limit == p.limit,
        alias_of(p).access % 0x10 == 2,
        alias_of(p).access / 0x10 == p.access / 0x10,
{
    let a = p.access;
    assert(((a & 0xF0) | 0x02) % 0x10 == 2 && ((a & 0xF0) | 0x02) / 0x10 == a / 0x10) by (bit_vector);
}

/// A block of DOS memory that a program asks for has a selector: its segment begins where the block
/// does and is as long. Given back by that selector, it is the same block that is freed.
#[verifier::rlimit(50)]
pub proof fn blocks_have_a_selector(m: State, ask: VMRegisters, give: VMRegisters, sel: u32)
    requires
        m.ldt.len() == 64,
        ask.eax % 0x1_0000 == 0x0100,
        give.eax % 0x1_0000 == 0x0101,
        give.edx % 0x1_0000 == sel,
        sel < 0x1_0000,
        shadowed(sel),
        ask.ebx % 0x1_0000 > 0,
    ensures
        ({
            let paras = word0(ask.ebx);
            let (arena, segment) = arena_alloc(m.arena, paras);
            let asked = int31(m, ask);
            &&& segment matches Some(s) ==> {
                let told = int31_reply(asked.m, asked.regs, sel);
                let d = descriptor(told.m.ldt, sel);
                let given = int31(told.m, give);
                &&& asked.calls == seq![HostCall::LdtAllocate]
                &&& told.regs.eax % 0x1_0000 == s
                &&& told.regs.edx % 0x1_0000 == sel
                &&& !carry(told.regs)
                &&& d.base == s * 16 && d.limit + 1 == paras * 16
                &&& told.m.arena == arena
                &&& arena_free(arena, s).1 ==> given.m.arena == arena_free(arena, s).0 && !carry(
                    given.regs,
                )
            }
            &&& segment is None ==> asked.m == m && carry(asked.regs)
        }),
{
    let paras = word0(ask.ebx);
    crate::dos::running::lemma_carry_bits(ask.eflags);
    crate::dos::running::lemma_carry_bits(give.eflags);
    if let (_, Some(s)) = arena_alloc(m.arena, paras) {
        crate::bits::lemma_parts_independent(ask.eax, 0, s);
        crate::bits::lemma_parts_independent(ask.edx, 0, word0(sel));
        assert(word0(((s * 16) as u32 / 16) as u32) == s);
    }
}

/// High memory comes in whole pages: as few as hold what was asked for.
pub proof fn high_memory_comes_in_pages(size: u32)
    requires
        size <= 0xFFFF_F000,
    ensures
        whole_pages(size) as int % 0x1000 == 0,
        size <= whole_pages(size) < size + 0x1000,
{
}

/// The hardware interrupts of a program: the first eight lines are interrupts 8 to 15, the next eight
/// 70h to 77h, and 1Ch is called by the timer.
pub proof fn lines_have_their_interrupts(line: int, other: u8)
    ensures
        0 <= line < 8 ==> hardware_irq((0x08 + line) as u8) == Some(line as u32),
        8 <= line < 16 ==> hardware_irq((0x70 + line - 8) as u8) == Some(line as u32),
        hardware_irq(0x1C) == Some(0u32),
        other < 0x08 || (0x0F < other < 0x70 && other != 0x1C) || other > 0x77 ==> hardware_irq(other)
            is None,
{
}

proof fn lemma_hooked(mask: u32, irq: u32, line: u32)
    by (bit_vector)
    requires
        irq < 16,
        line < 16,
    ensures
        ((mask | (1u32 << irq)) >> line) & 1 == (if line == irq { 1u32 } else { (mask >> line) & 1 }),
{
}

/// A program that sets the vector of a hardware interrupt gets that interrupt from now on, and no other
/// that it did not get before.
pub proof fn hooked_lines_are_remembered(mask: u32, int_num: u8, line: u32)
    requires
        line < 16,
    ensures
        (hooked(mask, int_num) >> line) & 1 == (if hardware_irq(int_num) == Some(line) {
            1u32
        } else {
            (mask >> line) & 1
        }),
{
    if let Some(irq) = hardware_irq(int_num) {
        lemma_hooked(mask, irq, line);
    }
}

/// A service that is refused by the system is told as failed.
pub proof fn refused_services_are_told(m: State, r: VMRegisters, sel: u32)
    requires
        m.pending == Pending::FreeDescriptor(sel),
        m.ldt.len() == 64,
        shadowed(sel),
    ensures
        carry(int31_reply(m, r, FAILED).regs),
        int31_reply(m, r, FAILED).m.ldt == m.ldt,
        !carry(int31_reply(m, r, 0).regs),
        descriptor(int31_reply(m, r, 0).m.ldt, sel).limit == 0,
{
    crate::dos::running::lemma_carry_bits(r.eflags);

}

} // verus!
