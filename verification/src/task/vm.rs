//! Entering the modes in which old programs run.
use vstd::prelude::*;

use crate::api::compat::VMRegisters;

verus! {

/// Virtual 8086 mode, and interrupts on.
pub const VM86_FLAGS: u32 = 0x20200;
/// Interrupts on.
pub const INTERRUPT_FLAG: u32 = 0x200;

/// What a task keeps while it runs in virtual 8086 mode.
#[derive(Clone, Copy, PartialEq, Eq, Structural, Debug)]
pub struct Vm86State {
    pub irq_mask: u32,
    pub pending_irqs: u32,
}

/// Make registers ready for virtual 8086 mode: nothing but the flags changes.
pub fn enter_vm86_mode(state: &mut Vm86State, regs: &mut VMRegisters, irq_mask: u32)
    ensures
        *final(regs) == (VMRegisters { eflags: old(regs).eflags | VM86_FLAGS, ..*old(regs) }),
        *final(state) == (Vm86State { irq_mask, ..*old(state) }),
{
    state.irq_mask = irq_mask;
    regs.eflags = regs.eflags | VM86_FLAGS;
}

/// Make registers ready for protected mode. Gives what the processor takes from its
/// stack: instruction, code, flags, stack, and stack segment.
pub fn enter_protected_mode(regs: &mut VMRegisters) -> (r: [u32; 5])
    ensures
        *final(regs) == (VMRegisters { eflags: old(regs).eflags | INTERRUPT_FLAG, ..*old(regs) }),
        r@ == seq![
            old(regs).eip, old(regs).cs, old(regs).eflags | INTERRUPT_FLAG, old(regs).esp,
            old(regs).ss,
        ],
{
    regs.eflags = regs.eflags | INTERRUPT_FLAG;
    let r: [u32; 5] = [regs.eip, regs.cs, regs.eflags, regs.esp, regs.ss];
    assert(r@ =~= seq![
        old(regs).eip, old(regs).cs, old(regs).eflags | INTERRUPT_FLAG, old(regs).esp,
        old(regs).ss,
    ]);
    r
}

} // verus!
