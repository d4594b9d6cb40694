//! The graphics driver: video modes are set by code of the machine, in 8086 mode.
use vstd::prelude::*;

use crate::api::compat::VMRegisters;
use crate::bits::{u16_from_bytes, u16_of, u32_from_bytes, u32_of};

verus! {

/// What a message asks for.
#[derive(Clone, Copy, PartialEq, Eq, Structural, Debug)]
pub enum GfxRequest {
    /// Set a mode of the first kind.
    SetVga { vga_mode: u8, signal: u32 },
    /// Tell about a mode.
    ModeInfo { mode: u16, signal: u32, info: u32 },
    /// Set a mode with a linear buffer.
    SetVbe { mode: u16, signal: u32 },
    /// Set where the picture begins.
    DisplayStart { x: u16, y: u16, signal: u32 },
    /// Nothing.
    Ignored,
}

/// What a message asks for, by its type and arguments.
pub open spec fn request_of(message_type: u32, args: Seq<u32>) -> GfxRequest {
    if message_type == 0x01 {
        GfxRequest::SetVga { vga_mode: (args[0] % 0x100) as u8, signal: args[1] }
    } else if message_type == 0x11 {
        GfxRequest::ModeInfo { mode: (args[0] % 0x1_0000) as u16, signal: args[1], info: args[2] }
    } else if message_type == 0x12 {
        GfxRequest::SetVbe { mode: (args[0] % 0x1_0000) as u16, signal: args[1] }
    } else if message_type == 0x17 {
        GfxRequest::DisplayStart {
            x: (args[0] % 0x1_0000) as u16,
            y: (args[1] % 0x1_0000) as u16,
            signal: args[2],
        }
    } else {
        GfxRequest::Ignored
    }
}

/// Read a message.
pub fn parse_request(message_type: u32, args: &[u32; 6]) -> (r: GfxRequest)
    ensures
        r == request_of(message_type, args@),
{
    if message_type == 0x01 {
        GfxRequest::SetVga { vga_mode: (args[0] % 0x100) as u8, signal: args[1] }
    } else if message_type == 0x11 {
        GfxRequest::ModeInfo { mode: (args[0] % 0x1_0000) as u16, signal: args[1], info: args[2] }
    } else if message_type == 0x12 {
        GfxRequest::SetVbe { mode: (args[0] % 0x1_0000) as u16, signal: args[1] }
    } else if message_type == 0x17 {
        GfxRequest::DisplayStart {
            x: (args[0] % 0x1_0000) as u16,
            y: (args[1] % 0x1_0000) as u16,
            signal: args[2],
        }
    } else {
        GfxRequest::Ignored
    }
}

/// The page of an address in memory, and the place in it.
pub fn map_signal(address: u32) -> (r: (u32, u32))
    ensures
        r.0 == address - address % 0x1000,
        r.1 == address % 0x1000,
{
    (address - address % 0x1000, address % 0x1000)
}

/// The registers with which a request calls the video code. `data` is an address for
/// what the code tells, and `vector` the address of the code.
pub open spec fn call_registers(
    request: GfxRequest, regs: VMRegisters, data: u32, ip: u16, segment: u16, stack_top: u32,
) -> VMRegisters {
    let r = VMRegisters {
        eip: ip as u32,
        cs: segment as u32,
        esp: (stack_top - 6) as u32,
        ..regs
    };
    match request {
        GfxRequest::SetVga { vga_mode, .. } => VMRegisters { eax: vga_mode as u32, ..r },
        GfxRequest::SetVbe { mode, .. } => VMRegisters {
            eax: 0x4F02,
            ebx: (mode as u32) | 0x4000,
            ..r
        },
        GfxRequest::ModeInfo { mode, .. } => VMRegisters {
            eax: 0x4F01,
            ecx: mode as u32,
            es: 0,
            edi: data,
            ..r
        },
        GfxRequest::DisplayStart { x, y, .. } => VMRegisters {
            eax: 0x4F07,
            ecx: x as u32,
            edx: y as u32,
            ..r
        },
        GfxRequest::Ignored => regs,
    }
}

/// Make registers ready to call the video code: its address comes from the vector of
/// the interrupt, and the stack holds the three words, all 0, that it returns by.
pub fn video_bios_interrupt(
    request: GfxRequest, regs: &mut VMRegisters, data: u32, ip: u16, segment: u16, stack_top: u32,
)
    requires
        stack_top >= 6,
    ensures
        *final(regs) == call_registers(request, *old(regs), data, ip, segment, stack_top),
{
    match request {
        GfxRequest::SetVga { vga_mode, .. } => {
            regs.eax = vga_mode as u32;
        },
        GfxRequest::SetVbe { mode, .. } => {
            regs.ebx = (mode as u32) | 0x4000;
            regs.eax = 0x4F02;
        },
        GfxRequest::ModeInfo { mode, .. } => {
            regs.ecx = mode as u32;
            regs.es = 0;
            regs.edi = data;
            regs.eax = 0x4F01;
        },
        GfxRequest::DisplayStart { x, y, .. } => {
            regs.ecx = x as u32;
            regs.edx = y as u32;
            regs.eax = 0x4F07;
        },
        GfxRequest::Ignored => {
            return;
        },
    }
    regs.eip = ip as u32;
    regs.cs = segment as u32;
    regs.esp = stack_top - 6;
}

/// What follows an instruction that the processor left to the driver.
#[derive(Clone, Copy, PartialEq, Eq, Structural, Debug)]
pub enum BiosStep {
    /// Go on in 8086 mode.
    Resume,
    /// Write a word at an address, and go on.
    WriteAndResume { address: u32, word: u16 },
    /// The code returned.
    Return,
}

/// The address of the next instruction.
pub fn instruction_address(regs: &VMRegisters) -> (r: u32)
    requires
        regs.cs * 16 + regs.eip <= u32::MAX,
    ensures
        r == regs.cs * 16 + regs.eip,
{
    regs.cs * 16 + regs.eip
}

/// An instruction that the driver carries out: save or load the flags, return, or turn
/// interrupts off or on.
pub open spec fn is_known(op: u8) -> bool {
    op == 0x9c || op == 0x9d || op == 0xcf || op == 0xfa || op == 0xfb
}

/// The registers and what follows, after an instruction. `top` is the word on the stack.
pub open spec fn after_op(op: u8, regs: VMRegisters, top: u16) -> (VMRegisters, BiosStep) {
    if op == 0x9c {
        let esp = ((regs.esp + 0x1_0000 - 2) % 0x1_0000) as u32;
        (
            VMRegisters { esp, eip: (regs.eip + 1) as u32, ..regs },
            BiosStep::WriteAndResume { address: esp, word: (regs.eflags % 0x1_0000) as u16 },
        )
    } else if op == 0x9d {
        (
            VMRegisters {
                esp: ((regs.esp + 2) % 0x1_0000) as u32,
                eflags: (top as u32) | 0x20200,
                eip: (regs.eip + 1) as u32,
                ..regs
            },
            BiosStep::Resume,
        )
    } else if op == 0xcf {
        (regs, BiosStep::Return)
    } else {
        (VMRegisters { eip: (regs.eip + 1) as u32, ..regs }, BiosStep::Resume)
    }
}

/// Carry out an instruction.
pub fn step_bios(op: u8, regs: &mut VMRegisters, top: u16) -> (r: BiosStep)
    requires
        is_known(op),
        old(regs).eip < u32::MAX,
    ensures
        (*final(regs), r) == after_op(op, *old(regs), top),
{
    if op == 0x9c {
        let low: u32 = regs.esp % 0x1_0000;
        regs.esp = (low + 0x1_0000 - 2) % 0x1_0000;
        let word: u16 = (regs.eflags % 0x1_0000) as u16;
        regs.eip = regs.eip + 1;
        BiosStep::WriteAndResume { address: regs.esp, word }
    } else if op == 0x9d {
        let low: u32 = regs.esp % 0x1_0000;
        regs.esp = (low + 2) % 0x1_0000;
        regs.eflags = (top as u32) | 0x20200;
        regs.eip = regs.eip + 1;
        BiosStep::Resume
    } else if op == 0xcf {
        BiosStep::Return
    } else {
        regs.eip = regs.eip + 1;
        BiosStep::Resume
    }
}

/// Saving the flags and loading them again leaves the stack where it was.
pub proof fn flags_round_trip(regs: VMRegisters, top: u16)
    requires
        regs.esp < 0x1_0000,
        regs.eip < u32::MAX - 1,
    ensures
        ({
            let (pushed, step) = after_op(0x9c, regs, top);
            let (popped, _) = after_op(0x9d, pushed, (regs.eflags % 0x1_0000) as u16);
            &&& popped.esp == regs.esp
            &&& step == (BiosStep::WriteAndResume {
                address: pushed.esp,
                word: (regs.eflags % 0x1_0000) as u16,
            })
            &&& popped.eip == regs.eip + 2
        }),
{
}

/// What a mode looks like.
#[derive(Clone, Copy, PartialEq, Eq, Structural, Debug)]
pub struct VbeModeInfo {
    pub width: u16,
    pub height: u16,
    pub pitch: u16,
    pub bpp: u8,
    pub framebuffer: u32,
}

/// What the video code tells of a mode.
pub open spec fn mode_info(s: Seq<u8>) -> VbeModeInfo {
    VbeModeInfo {
        pitch: u16_of(s[16], s[17]),
        width: u16_of(s[18], s[19]),
        height: u16_of(s[20], s[21]),
        bpp: s[25],
        framebuffer: u32_of(s[40], s[41], s[42], s[43]),
    }
}

/// Read what the video code tells of a mode.
pub fn get_vbe_mode_info(s: &[u8]) -> (r: VbeModeInfo)
    requires
        s@.len() >= 256,
    ensures
        r == mode_info(s@),
{
    VbeModeInfo {
        pitch: u16_from_bytes(s[16], s[17]),
        width: u16_from_bytes(s[18], s[19]),
        height: u16_from_bytes(s[20], s[21]),
        bpp: s[25],
        framebuffer: u32_from_bytes(s[40], s[41], s[42], s[43]),
    }
}

} // verus!
