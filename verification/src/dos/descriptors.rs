//! The shadow of the local descriptor table.
//!
//! The kernel replaces descriptors as a whole, but protected-mode programs change
//! base, limit and access one by one. So a copy of each descriptor is kept.
use vstd::prelude::*;

verus! {

pub const LDT_MAX_SLOTS: usize = 64;

#[derive(Clone, Copy, PartialEq, Eq, Structural, Debug)]
pub struct LdtDescriptorParams {
    pub base: u32,
    pub limit: u32,
    pub access: u8,
    pub flags: u8,
}

pub open spec fn no_descriptor() -> LdtDescriptorParams {
    LdtDescriptorParams { base: 0, limit: 0, access: 0, flags: 0 }
}

/// The shadow table; slot 0 is never used.
pub struct LdtShadow {
    pub slots: Vec<LdtDescriptorParams>,
}

/// A selector names a slot of the shadow table.
pub open spec fn shadowed(selector: u32) -> bool {
    1 <= selector / 8 < 64
}

/// The descriptor that a selector names.
pub open spec fn descriptor(slots: Seq<LdtDescriptorParams>, selector: u32) -> LdtDescriptorParams {
    if shadowed(selector) { slots[selector as int / 8] } else { no_descriptor() }
}

/// The table after a descriptor was set.
pub open spec fn with_descriptor(
    slots: Seq<LdtDescriptorParams>, selector: u32, p: LdtDescriptorParams,
) -> Seq<LdtDescriptorParams> {
    if shadowed(selector) { slots.update(selector as int / 8, p) } else { slots }
}

impl LdtShadow {
    pub open spec fn wf(&self) -> bool {
        self.slots@.len() == 64
    }

    pub fn new() -> (r: Self)
        ensures
            r.wf(),
            r.slots@ == Seq::new(64, |i: int| no_descriptor()),
    {
        let mut slots: Vec<LdtDescriptorParams> = Vec::new();
        let mut i: usize = 0;
        while i < 64
            invariant
                i <= 64,
                slots@ =~= Seq::new(i as nat, |k: int| no_descriptor()),
            decreases 64 - i,
        {
            slots.push(LdtDescriptorParams { base: 0, limit: 0, access: 0, flags: 0 });
            i += 1;
        }
        LdtShadow { slots }
    }

    /// Remember what a descriptor was set to.
    pub fn dpmi_ldt_write(&mut self, selector: u32, params: &LdtDescriptorParams)
        requires
            old(self).wf(),
        ensures
            final(self).wf(),
            final(self).slots@ == with_descriptor(old(self).slots@, selector, *params),
    {
        let index: usize = (selector / 8) as usize;
        if index > 0 && index < LDT_MAX_SLOTS {
            self.slots[index] = *params;
        }
    }

    /// What a descriptor was last set to.
    pub fn dpmi_ldt_read(&self, selector: u32) -> (r: LdtDescriptorParams)
        requires
            self.wf(),
        ensures
            r == descriptor(self.slots@, selector),
    {
        let index: usize = (selector / 8) as usize;
        if index > 0 && index < LDT_MAX_SLOTS {
            self.slots[index]
        } else {
            LdtDescriptorParams { base: 0, limit: 0, access: 0, flags: 0 }
        }
    }

    /// Forget a descriptor.
    pub fn dpmi_ldt_clear(&mut self, selector: u32)
        requires
            old(self).wf(),
        ensures
            final(self).wf(),
            final(self).slots@ == with_descriptor(old(self).slots@, selector, no_descriptor()),
    {
        let params: LdtDescriptorParams = LdtDescriptorParams { base: 0, limit: 0, access: 0, flags: 0 };
        self.dpmi_ldt_write(selector, &params);
    }
}

/// A descriptor is read as it was last written; selectors of other slots are not
/// touched. A selector outside the table always reads as none.
pub proof fn descriptors_are_independent(
    slots: Seq<LdtDescriptorParams>, a: u32, b: u32, p: LdtDescriptorParams,
)
    requires
        slots.len() == 64,
    ensures
        shadowed(a) ==> descriptor(with_descriptor(slots, a, p), a) == p,
        a / 8 != b / 8 ==> descriptor(with_descriptor(slots, a, p), b) == descriptor(slots, b),
        !shadowed(a) ==> descriptor(slots, a) == no_descriptor(),
{
}

} // verus!
