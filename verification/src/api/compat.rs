//! Register state of a virtual 8086 task.
use vstd::prelude::*;

use crate::bits::{
    byte0, byte1, lemma_bytes_of_u32, lemma_parts_independent, with_byte0, with_byte1, with_word0,
    word0, word1,
};

verus! {

/// Why an 8086 task came back: a general protection fault.
pub const VM86_EXIT_GPF: u32 = 0;
/// Why an 8086 task came back: a debug trap.
pub const VM86_EXIT_DEBUG: u32 = 1;

/// Bit N of the interrupt mask delivers IRQ N as a virtual interrupt.
pub const VM86_IRQ_TIMER: u32 = 1;
pub const VM86_IRQ_KEYBOARD: u32 = 2;

#[derive(Clone, Copy, PartialEq, Eq, Structural, Debug)]
pub struct VMRegisters {
    pub eax: u32,
    pub ebx: u32,
    pub ecx: u32,
    pub edx: u32,
    pub esi: u32,
    pub edi: u32,
    pub ebp: u32,
    pub eip: u32,
    pub cs: u32,
    pub eflags: u32,
    pub esp: u32,
    pub ss: u32,
    pub es: u32,
    pub ds: u32,
    pub fs: u32,
    pub gs: u32,
}

impl VMRegisters {
    pub fn ah(&self) -> (r: u8)
        ensures
            r == byte1(self.eax),
    {
        proof { lemma_bytes_of_u32(self.eax, 0, 0); }
        ((self.eax & 0xff00) >> 8) as u8
    }

    pub fn al(&self) -> (r: u8)
        ensures
            r == byte0(self.eax),
    {
        proof { lemma_bytes_of_u32(self.eax, 0, 0); }
        (self.eax & 0xff) as u8
    }

    /// Set the low byte of EAX; nothing else changes.
    pub fn set_al(&mut self, al: u8)
        ensures
            *final(self) == (VMRegisters { eax: with_byte0(old(self).eax, al), ..*old(self) }),
    {
        proof { lemma_bytes_of_u32(self.eax, al, 0); }
        self.eax = (self.eax & 0xffffff00) | al as u32;
    }

    pub fn set_ah(&mut self, ah: u8)
        ensures
            *final(self) == (VMRegisters { eax: with_byte1(old(self).eax, ah), ..*old(self) }),
    {
        proof { lemma_bytes_of_u32(self.eax, ah, 0); }
        self.eax = (self.eax & 0xffff00ff) | ((ah as u32) << 8);
    }

    pub fn set_ax(&mut self, ax: u16)
        ensures
            *final(self) == (VMRegisters { eax: with_word0(old(self).eax, ax), ..*old(self) }),
    {
        proof { lemma_bytes_of_u32(self.eax, 0, ax); }
        self.eax = (self.eax & 0xffff0000) | ax as u32;
    }

    pub fn dl(&self) -> (r: u8)
        ensures
            r == byte0(self.edx),
    {
        proof { lemma_bytes_of_u32(self.edx, 0, 0); }
        (self.edx & 0xff) as u8
    }

    pub fn dh(&self) -> (r: u8)
        ensures
            r == byte1(self.edx),
    {
        proof { lemma_bytes_of_u32(self.edx, 0, 0); }
        ((self.edx & 0xff00) >> 8) as u8
    }

    pub fn bh(&self) -> (r: u8)
        ensures
            r == byte1(self.ebx),
    {
        proof { lemma_bytes_of_u32(self.ebx, 0, 0); }
        ((self.ebx & 0xff00) >> 8) as u8
    }

    pub fn bl(&self) -> (r: u8)
        ensures
            r == byte0(self.ebx),
    {
        proof { lemma_bytes_of_u32(self.ebx, 0, 0); }
        (self.ebx & 0xff) as u8
    }

    pub fn ch(&self) -> (r: u8)
        ensures
            r == byte1(self.ecx),
    {
        proof { lemma_bytes_of_u32(self.ecx, 0, 0); }
        ((self.ecx & 0xff00) >> 8) as u8
    }

    pub fn cl(&self) -> (r: u8)
        ensures
            r == byte0(self.ecx),
    {
        proof { lemma_bytes_of_u32(self.ecx, 0, 0); }
        (self.ecx & 0xff) as u8
    }

    pub fn set_cx(&mut self, cx: u16)
        ensures
            *final(self) == (VMRegisters { ecx: with_word0(old(self).ecx, cx), ..*old(self) }),
    {
        proof { lemma_bytes_of_u32(self.ecx, 0, cx); }
        self.ecx = (self.ecx & 0xffff0000) | cx as u32;
    }

    pub fn set_dx(&mut self, dx: u16)
        ensures
            *final(self) == (VMRegisters { edx: with_word0(old(self).edx, dx), ..*old(self) }),
    {
        proof { lemma_bytes_of_u32(self.edx, 0, dx); }
        self.edx = (self.edx & 0xffff0000) | dx as u32;
    }
}

/// A byte or word that was set is read back, and its neighbours keep their value.
pub proof fn register_parts_are_independent(x: u32, b: u8, w: u16)
    ensures
        byte0(with_byte0(x, b)) == b,
        byte1(with_byte0(x, b)) == byte1(x),
        byte1(with_byte1(x, b)) == b,
        byte0(with_byte1(x, b)) == byte0(x),
        word0(with_word0(x, w)) == w,
        word1(with_word0(x, w)) == word1(x),
        word1(with_byte0(x, b)) == word1(x),
        word1(with_byte1(x, b)) == word1(x),
{
    lemma_parts_independent(x, b, w);
}

} // verus!
