//! The table by which the processor finds the handler of an interrupt.
use vstd::prelude::*;

verus! {

pub const IDT_PRESENT: u8 = 0x80;
pub const IDT_DESCRIPTOR_RING_0: u8 = 0;
pub const IDT_DESCRIPTOR_RING_3: u8 = 0x60;
pub const IDT_GATE_TYPE_INT_32: u8 = 0xe;

/// The selector of the kernel's code.
pub const KERNEL_CODE: u16 = 8;

/// Programs call the kernel by this interrupt.
pub const SYSCALL_VECTOR: u8 = 0x2b;
/// The interrupt of the first line of the devices.
pub const IRQ_BASE: u8 = 0x30;
/// Other processors are told of the timer by this interrupt.
pub const PIT_CASCADE_VECTOR: u8 = 0xf0;

/// How to handle one interrupt: the address of the handler in two halves.
#[derive(Clone, Copy, PartialEq, Eq, Structural, Debug)]
pub struct IdtEntry {
    pub offset_low: u16,
    pub selector: u16,
    pub zero: u8,
    pub type_and_attributes: u8,
    pub offset_high: u16,
}

/// An entry without a handler.
pub open spec fn empty_entry() -> IdtEntry {
    IdtEntry {
        offset_low: 0,
        selector: KERNEL_CODE,
        zero: 0,
        type_and_attributes: 0,
        offset_high: 0,
    }
}

/// An entry with the handler at an address.
pub open spec fn with_handler(entry: IdtEntry, address: u32) -> IdtEntry {
    IdtEntry {
        offset_low: (address % 0x1_0000) as u16,
        offset_high: (address / 0x1_0000) as u16,
        type_and_attributes: IDT_PRESENT | IDT_GATE_TYPE_INT_32,
        ..entry
    }
}

/// The address of an entry's handler.
pub open spec fn handler_of(entry: IdtEntry) -> int {
    entry.offset_high * 0x1_0000 + entry.offset_low
}

impl IdtEntry {
    pub fn new() -> (r: Self)
        ensures
            r == empty_entry(),
    {
        IdtEntry {
            offset_low: 0,
            selector: KERNEL_CODE,
            zero: 0,
            type_and_attributes: 0,
            offset_high: 0,
        }
    }

    /// Set the handler, by its address.
    pub fn set_handler(&mut self, address: u32)
        ensures
            *final(self) == with_handler(*old(self), address),
    {
        self.set_handler_at_offset(address);
    }

    /// Set a handler that takes an error code, by its address.
    pub fn set_handler_with_error(&mut self, address: u32)
        ensures
            *final(self) == with_handler(*old(self), address),
    {
        self.set_handler_at_offset(address);
    }

    fn set_handler_at_offset(&mut self, offset: u32)
        ensures
            *final(self) == with_handler(*old(self), offset),
    {
        self.offset_low = (offset % 0x1_0000) as u16;
        self.offset_high = (offset / 0x1_0000) as u16;
        self.type_and_attributes = IDT_PRESENT | IDT_GATE_TYPE_INT_32;
    }

    /// Let programs raise the interrupt.
    pub fn make_usermode_accessible(&mut self)
        ensures
            *final(self) == (IdtEntry {
                type_and_attributes: old(self).type_and_attributes | IDT_DESCRIPTOR_RING_3,
                ..*old(self)
            }),
    {
        self.type_and_attributes = self.type_and_attributes | IDT_DESCRIPTOR_RING_3;
    }
}

/// The handler of an entry is the one that was set, with or without access for
/// programs.
pub proof fn handler_is_found(entry: IdtEntry, address: u32)
    ensures
        handler_of(with_handler(entry, address)) == address,
        with_handler(entry, address).selector == entry.selector,
{
}

/// Where the table is, for the processor.
#[derive(Clone, Copy, PartialEq, Eq, Structural, Debug)]
pub struct IdtDescriptor {
    pub size: u16,
    pub offset: u32,
}

impl IdtDescriptor {
    pub fn new() -> (r: Self)
        ensures
            r == (IdtDescriptor { size: 0, offset: 0 }),
    {
        IdtDescriptor { size: 0, offset: 0 }
    }

    /// Point to a table at an address. The size is that of its last byte; an entry has
    /// eight bytes.
    pub fn point_to(&mut self, idt: &Vec<IdtEntry>, address: u32)
        requires
            1 <= idt@.len() <= 0x2000,
        ensures
            *final(self) == (IdtDescriptor { size: (idt@.len() * 8 - 1) as u16, offset: address }),
    {
        self.size = (idt.len() * 8 - 1) as u16;
        self.offset = address;
    }
}

/// The interrupts that the kernel handles: exceptions, its own call, the lines of the
/// devices but the third, which joins the two chips, and the timer of other processors.
pub open spec fn is_handled(vector: int) -> bool {
    (0 <= vector <= 0x0e && vector != 9) || vector == SYSCALL_VECTOR || (IRQ_BASE <= vector
        <= IRQ_BASE + 15 && vector != IRQ_BASE + 2) || vector == PIT_CASCADE_VECTOR
}

/// The entry of an interrupt. Programs can raise the call of the kernel alone.
pub open spec fn entry_for(vector: int, address: u32) -> IdtEntry {
    if !is_handled(vector) {
        empty_entry()
    } else if vector == SYSCALL_VECTOR {
        let e = with_handler(empty_entry(), address);
        IdtEntry { type_and_attributes: e.type_and_attributes | IDT_DESCRIPTOR_RING_3, ..e }
    } else {
        with_handler(empty_entry(), address)
    }
}

/// The table, from the address of the handler of each interrupt. Exceptions 8 and 10
/// to 14 pass an error code to theirs.
pub fn init_idt(handlers: &Vec<u32>) -> (r: Vec<IdtEntry>)
    requires
        handlers@.len() == 256,
    ensures
        r@.len() == 256,
        forall|v: int| 0 <= v < 256 ==> #[trigger] r@[v] == entry_for(v, handlers@[v]),
{
    let mut idt: Vec<IdtEntry> = Vec::new();
    let mut v: usize = 0;
    while v < 256
        invariant
            v <= 256,
            handlers@.len() == 256,
            idt@.len() == v,
            forall|k: int| 0 <= k < v ==> #[trigger] idt@[k] == entry_for(k, handlers@[k]),
        decreases 256 - v,
    {
        let mut entry: IdtEntry = IdtEntry::new();
        let exception: bool = v <= 0x0e && v != 9;
        let syscall: bool = v == SYSCALL_VECTOR as usize;
        let irq: bool = v >= IRQ_BASE as usize && v <= IRQ_BASE as usize + 15 && v != IRQ_BASE as usize
            + 2;
        let cascade: bool = v == PIT_CASCADE_VECTOR as usize;
        if v == 8 || (v >= 0x0a && v <= 0x0e) {
            entry.set_handler_with_error(handlers[v]);
        } else if exception || syscall || irq || cascade {
            entry.set_handler(handlers[v]);
        }
        if syscall {
            entry.make_usermode_accessible();
        }
        idt.push(entry);
        v += 1;
    }
    idt
}

/// The vectors of the processor, of the lines and of system calls have a handler, at their address. System
/// calls alone may be made by programs. All other vectors have none.
pub proof fn vectors_have_their_handler(vector: int, address: u32)
    requires
        0 <= vector < 256,
    ensures
        is_handled(vector) ==> handler_of(entry_for(vector, address)) == address && entry_for(
            vector, address,
        ).type_and_attributes / 0x80 == 1,
        is_handled(vector) ==> ((entry_for(vector, address).type_and_attributes / 0x20) % 4 == 3) == (vector
            == 0x2b),
        !is_handled(vector) ==> entry_for(vector, address).type_and_attributes == 0,
        entry_for(vector, address).selector == 8,
        is_handled(vector) == (vector < 9 || 9 < vector < 15 || vector == 0x2b || vector == 0x30 || vector
            == 0x31 || 0x33 <= vector <= 0x3f || vector == 0xf0),
{
    assert(0x80u8 | 0xe == 0x8e && 0x8eu8 | 0x60 == 0xee) by (bit_vector);
}

} // verus!
