//! BIOS services: video (INT 10h) and keyboard (INT 16h).
use vstd::prelude::*;

use crate::api::compat::VMRegisters;
use crate::bits::{
    byte0, byte1, low16, set_low16, set_mid8, with_byte0, with_byte1, with_word0, word0,
};
use crate::dos::dpmi::done;
use crate::dos::machine::{
    put16, real_address, HostCall, LogLine, Machine, Missing, Outcome, State,
};
use crate::text::{decimal, push_decimal};

verus! {

/// The data area with the geometry of a video mode: 40 columns for the graphics
/// mode, 80 for text; cursor and page are reset.
pub open spec fn bda_for_mode(mem: Seq<u8>, mode: u8) -> Seq<u8> {
    let a = mem.update(0x449, mode);
    let b = if mode == 0x13 {
        put16(put16(a, 0x44A, 40), 0x44C, 0)
    } else {
        put16(put16(a, 0x44A, 80), 0x44C, 4000)
    };
    put16(b.update(0x484, 24), 0x44E, 0).update(0x462, 0)
}

/// A colour value of six bits in eight. Larger values wrap.
pub open spec fn six_to_eight(v: u8) -> u8 {
    ((v * 255 / 63) % 256) as u8
}

/// A colour value of eight bits in six.
pub open spec fn eight_to_six(v: u8) -> u8 {
    (v * 63 / 255) as u8
}

/// How many colours from `first` on a request for `count` covers.
pub open spec fn colors_covered(first: int, count: int) -> int {
    if first >= 256 {
        0
    } else if first + count <= 256 {
        count
    } else {
        256 - first
    }
}

/// The palette with `n` colours from `first` on taken from memory.
pub open spec fn colors_loaded(palette: Seq<u8>, mem: Seq<u8>, table: int, first: int, n: int) -> Seq<u8> {
    Seq::new(
        768,
        |k: int| if first * 3 <= k < (first + n) * 3 {
            six_to_eight(mem[table + (k - first * 3)])
        } else {
            palette[k]
        },
    )
}

/// Memory with `n` colours from `first` on stored at `table`.
pub open spec fn colors_stored(mem: Seq<u8>, palette: Seq<u8>, table: int, first: int, n: int) -> Seq<u8> {
    Seq::new(
        mem.len(),
        |k: int| if table <= k < table + n * 3 {
            eight_to_six(palette[first * 3 + (k - table)])
        } else {
            mem[k]
        },
    )
}

/// The table of a request for colours, at ES:DX.
pub open spec fn color_table(r: VMRegisters) -> int {
    real_address(r.es as int, word0(r.edx) as int)
}

/// Palette services, by AL.
pub open spec fn palette_service(m: State, r: VMRegisters) -> Outcome {
    let al = byte0(r.eax);
    let first = word0(r.ebx) as int;
    let n = colors_covered(first, word0(r.ecx) as int);
    if al == 0x10 && first < 256 {
        // Set colour BX to DH, CH, CL.
        let p = m.palette.update(first * 3, six_to_eight(byte1(r.edx))).update(
            first * 3 + 1, six_to_eight(byte1(r.ecx)),
        ).update(first * 3 + 2, six_to_eight(byte0(r.ecx)));
        done(State { palette: p, ..m }, r, seq![HostCall::PushPalette])
    } else if al == 0x12 {
        // Set CX colours from BX on from the table.
        done(
            State { palette: colors_loaded(m.palette, m.mem, color_table(r), first, n), ..m }, r,
            seq![HostCall::PushPalette],
        )
    } else if al == 0x15 && first < 256 {
        // Read colour BX into DH, CH, CL.
        let red = eight_to_six(m.palette[first * 3]);
        let green = eight_to_six(m.palette[first * 3 + 1]);
        let blue = eight_to_six(m.palette[first * 3 + 2]);
        done(
            m,
            VMRegisters {
                edx: with_byte1(r.edx, red),
                ecx: with_word0(r.ecx, (green * 256 + blue) as u16),
                ..r
            },
            Seq::empty(),
        )
    } else if al == 0x17 {
        // Read CX colours from BX on into the table.
        done(
            State { mem: colors_stored(m.mem, m.palette, color_table(r), first, n), ..m }, r,
            Seq::empty(),
        )
    } else {
        done(m, r, Seq::empty())
    }
}

/// Video services, by AH.
pub open spec fn video_service(m: State, r: VMRegisters) -> Outcome {
    let ah = byte1(r.eax);
    let al = byte0(r.eax);
    if ah == 0x00 {
        // Set the video mode; the top bit only asks to keep the screen.
        let mode = (al % 128) as u8;
        let set = State { vga_mode: mode, ..m };
        if mode == 0x03 {
            let text = State {
                mem: bda_for_mode(m.mem, 0x03), gfx_paddr: 0,
                gfx_vaddr: if m.gfx_paddr != 0 { 0 } else { m.gfx_vaddr },
                gfx_size: if m.gfx_paddr != 0 { 0 } else { m.gfx_size },
                ..set
            };
            if m.gfx_paddr != 0 {
                done(text, r, seq![HostCall::ExitGraphics, HostCall::ClearScreen])
            } else {
                done(text, r, seq![HostCall::ClearScreen])
            }
        } else if mode == 0x13 {
            done(
                State { mem: bda_for_mode(m.mem, 0x13), ..set }, r,
                seq![HostCall::EnterGraphics(320, 200, 8)],
            )
        } else {
            done(set, r, Seq::empty())
        }
    } else if ah == 0x02 {
        // Put the cursor at row DH, column DL.
        done(
            m, r,
            seq![HostCall::MoveCursor((byte1(r.edx) + 1) as u32, (byte0(r.edx) + 1) as u32)],
        )
    } else if ah == 0x06 {
        // Scroll up; zero lines clear the screen.
        done(m, r, if al == 0 { seq![HostCall::ClearScreen] } else { Seq::empty() })
    } else if ah == 0x09 {
        // Write CX characters AL.
        done(m, r, Seq::new(word0(r.ecx) as nat, |i: int| HostCall::WriteByte(1, al)))
    } else if ah == 0x0E {
        // Write character AL.
        done(m, r, seq![HostCall::WriteByte(1, al)])
    } else if ah == 0x0F {
        // Get the video mode: columns, mode and page.
        let cols: u8 = if m.vga_mode == 0x13 { 40 } else { 80 };
        done(
            m,
            VMRegisters {
                eax: with_byte0(with_byte1(r.eax, cols), m.vga_mode),
                ebx: with_byte1(r.ebx, 0),
                ..r
            },
            Seq::empty(),
        )
    } else if ah == 0x10 {
        palette_service(m, r)
    } else if ah == 0x12 {
        // What kind of adapter this is.
        if byte0(r.ebx) == 0x10 {
            done(
                m,
                VMRegisters { ebx: with_word0(r.ebx, 0x0003), ecx: with_word0(r.ecx, 0x0009), ..r },
                Seq::empty(),
            )
        } else {
            done(m, VMRegisters { eax: with_byte0(r.eax, 0x12), ..r }, Seq::empty())
        }
    } else if ah == 0x1A {
        // What displays there are.
        if al == 0x00 {
            done(
                m,
                VMRegisters { eax: with_byte0(r.eax, 0x1A), ebx: with_word0(r.ebx, 0x0008), ..r },
                Seq::empty(),
            )
        } else {
            done(m, r, Seq::empty())
        }
    } else if ah == 0x4F {
        // VESA extensions are not there.
        done(m, VMRegisters { eax: with_word0(r.eax, 0x0100), ..r }, Seq::empty())
    } else if ah == 0x5F || ah == 0x6F {
        // Vendor extensions are not there.
        done(m, VMRegisters { eax: with_word0(r.eax, 0x0000), ..r }, Seq::empty())
    } else {
        done(m, r, seq![HostCall::Log(LogLine::Missing(Missing::Video(ah)))])
    }
}

/// The table of colours that a palette service works on can be addressed.
pub open spec fn video_ready(m: State, r: VMRegisters) -> bool {
    let al = byte0(r.eax);
    byte1(r.eax) == 0x10 && (al == 0x12 || al == 0x17) ==> {
        let n = colors_covered(word0(r.ebx) as int, word0(r.ecx) as int);
        n > 0 ==> r.es <= 0xffff && color_table(r) + n * 3 <= m.mem.len()
    }
}

/// How many of `count` colours from `first` on the palette has.
fn covered(first: usize, count: usize) -> (r: usize)
    requires
        first <= 0xffff,
        count <= 0xffff,
    ensures
        r == colors_covered(first as int, count as int),
{
    if first >= 256 {
        0
    } else if first + count <= 256 {
        count
    } else {
        256 - first
    }
}

fn to_eight(v: u8) -> (r: u8)
    ensures
        r == six_to_eight(v),
{
    ((v as u32 * 255 / 63) % 256) as u8
}

fn to_six(v: u8) -> (r: u8)
    ensures
        r == eight_to_six(v),
        r <= 63,
{
    (v as u32 * 63 / 255) as u8
}

fn call_list(call: HostCall) -> (r: Vec<HostCall>)
    ensures
        r@ == seq![call],
{
    let r: Vec<HostCall> = vec![call];
    assert(r@ =~= seq![call]);
    r
}

fn empty_list() -> (r: Vec<HostCall>)
    ensures
        r@ == Seq::<HostCall>::empty(),
{
    let r: Vec<HostCall> = Vec::new();
    assert(r@ =~= Seq::<HostCall>::empty());
    r
}

impl Machine {
    /// Note a video mode in the BIOS data area.
    pub fn update_bda_for_mode(&mut self, mode: u8)
        requires
            old(self).wf(),
        ensures
            final(self).wf(),
            final(self)@ == (State { mem: bda_for_mode(old(self)@.mem, mode), ..old(self)@ }),
    {
        self.write8(0x449, mode);
        if mode == 0x13 {
            self.write16(0x44A, 40);
            self.write16(0x44C, 0);
        } else {
            self.write16(0x44A, 80);
            self.write16(0x44C, 4000);
        }
        self.write8(0x484, 24);
        self.write16(0x44E, 0);
        self.write8(0x462, 0);
    }

    /// Graphics mode ends; the console is told by the call that goes with it.
    pub fn exit_graphics_mode(&mut self)
        requires
            old(self).wf(),
        ensures
            final(self).wf(),
            final(self)@ == (State { gfx_paddr: 0, gfx_vaddr: 0, gfx_size: 0, ..old(self)@ }),
    {
        self.gfx_paddr = 0;
        self.gfx_vaddr = 0;
        self.gfx_size = 0;
    }

    /// Whether the table of colours that a palette service works on can be addressed.
    pub fn bios_video_ready(&self, regs: &VMRegisters) -> (r: bool)
        requires
            self.wf(),
        ensures
            r == video_ready(self@, *regs),
    {
        if regs.ah() != 0x10 || (regs.al() != 0x12 && regs.al() != 0x17) {
            return true;
        }
        let n: u64 = covered(low16(regs.ebx) as usize, low16(regs.ecx) as usize) as u64;
        n == 0 || (regs.es <= 0xffff && regs.es as u64 * 16 + low16(regs.edx) as u64 + n * 3
            <= self.mem.len() as u64)
    }

    /// Serve INT 10h. Returns the calls to make.
    #[verifier::rlimit(40)]
    pub fn bios_video(&mut self, regs: &mut VMRegisters) -> (r: Vec<HostCall>)
        requires
            old(self).wf(),
            video_ready(old(self)@, *old(regs)),
        ensures
            final(self).wf(),
            done(final(self)@, *final(regs), r@) == video_service(old(self)@, *old(regs)),
    {
        let al: u8 = regs.al();
        match regs.ah() {
            0x00 => self.set_video_mode(regs),
            0x02 => {
                let row: u32 = regs.dh() as u32 + 1;
                let col: u32 = regs.dl() as u32 + 1;
                call_list(HostCall::MoveCursor(row, col))
            }
            0x06 => {
                if al == 0 { call_list(HostCall::ClearScreen) } else { empty_list() }
            }
            0x09 => {
                let count: u16 = low16(regs.ecx);
                let mut calls: Vec<HostCall> = empty_list();
                let mut i: u16 = 0;
                while i < count
                    invariant
                        i <= count,
                        calls@ =~= Seq::new(i as nat, |k: int| HostCall::WriteByte(1, al)),
                    decreases count - i,
                {
                    calls.push(HostCall::WriteByte(1, al));
                    i += 1;
                }
                calls
            }
            0x0E => call_list(HostCall::WriteByte(1, al)),
            0x0F => {
                let cols: u8 = if self.vga_mode == 0x13 { 40 } else { 80 };
                regs.set_ah(cols);
                regs.set_al(self.vga_mode);
                regs.ebx = set_mid8(regs.ebx, 0);
                empty_list()
            }
            0x10 => self.bios_palette(regs),
            0x12 => {
                if regs.bl() == 0x10 {
                    regs.ebx = set_low16(regs.ebx, 0x0003);
                    regs.ecx = set_low16(regs.ecx, 0x0009);
                } else {
                    regs.set_al(0x12);
                }
                empty_list()
            }
            0x1A => {
                if al == 0x00 {
                    regs.set_al(0x1A);
                    regs.ebx = set_low16(regs.ebx, 0x0008);
                }
                empty_list()
            }
            0x4F => {
                regs.set_ax(0x0100);
                empty_list()
            }
            0x5F => {
                regs.set_ax(0x0000);
                empty_list()
            }
            0x6F => {
                regs.set_ax(0x0000);
                empty_list()
            }
            ah => call_list(HostCall::Log(LogLine::Missing(Missing::Video(ah)))),
        }
    }

    fn set_video_mode(&mut self, regs: &VMRegisters) -> (r: Vec<HostCall>)
        requires
            old(self).wf(),
            byte1(regs.eax) == 0x00,
        ensures
            final(self).wf(),
            done(final(self)@, *regs, r@) == video_service(old(self)@, *regs),
    {
        let mode: u8 = regs.al() % 128;
        self.vga_mode = mode;
        if mode == 0x03 {
            let leaving: bool = self.gfx_paddr != 0;
            if leaving {
                self.exit_graphics_mode();
            }
            self.update_bda_for_mode(0x03);
            if leaving {
                let calls: Vec<HostCall> = vec![HostCall::ExitGraphics, HostCall::ClearScreen];
                assert(calls@ =~= seq![HostCall::ExitGraphics, HostCall::ClearScreen]);
                calls
            } else {
                call_list(HostCall::ClearScreen)
            }
        } else if mode == 0x13 {
            self.update_bda_for_mode(0x13);
            call_list(HostCall::EnterGraphics(320, 200, 8))
        } else {
            empty_list()
        }
    }

    /// Serve the palette functions of INT 10h.
    #[verifier::rlimit(40)]
    fn bios_palette(&mut self, regs: &mut VMRegisters) -> (r: Vec<HostCall>)
        requires
            old(self).wf(),
            byte1(old(regs).eax) == 0x10,
            video_ready(old(self)@, *old(regs)),
        ensures
            final(self).wf(),
            done(final(self)@, *final(regs), r@) == palette_service(old(self)@, *old(regs)),
    {
        let first: usize = low16(regs.ebx) as usize;
        let count: usize = low16(regs.ecx) as usize;
        let n: usize = covered(first, count);
        match regs.al() {
            0x10 => {
                if first < 256 {
                    self.palette[first * 3] = to_eight(regs.dh());
                    self.palette[first * 3 + 1] = to_eight(regs.ch());
                    self.palette[first * 3 + 2] = to_eight(regs.cl());
                    call_list(HostCall::PushPalette)
                } else {
                    empty_list()
                }
            }
            0x12 => {
                self.load_colors(regs, first, n);
                call_list(HostCall::PushPalette)
            }
            0x15 => {
                if first < 256 {
                    let red: u8 = to_six(self.palette[first * 3]);
                    let green: u8 = to_six(self.palette[first * 3 + 1]);
                    let blue: u8 = to_six(self.palette[first * 3 + 2]);
                    regs.edx = set_mid8(regs.edx, red);
                    regs.ecx = set_low16(regs.ecx, green as u16 * 256 + blue as u16);
                }
                empty_list()
            }
            0x17 => {
                self.store_colors(regs, first, n);
                empty_list()
            }
            _ => empty_list(),
        }
    }

    fn load_colors(&mut self, regs: &VMRegisters, first: usize, n: usize)
        requires
            old(self).wf(),
            n > 0 ==> first + n <= 256,
            n > 0 ==> regs.es <= 0xffff && color_table(*regs) + n * 3 <= old(self).mem@.len(),
        ensures
            final(self).wf(),
            final(self)@ == (State {
                palette: colors_loaded(
                    old(self)@.palette, old(self)@.mem, color_table(*regs), first as int, n as int,
                ),
                ..old(self)@
            }),
    {
        if n == 0 {
            assert(self.palette@ =~= colors_loaded(
                old(self)@.palette, old(self)@.mem, color_table(*regs), first as int, 0,
            ));
            return;
        }
        let table: usize = regs.es as usize * 16 + low16(regs.edx) as usize;
        let size: usize = self.mem.len();
        let mut k: usize = 0;
        while k < n * 3
            invariant
                k <= n * 3,
                0 < n,
                first + n <= 256,
                table == color_table(*regs),
                table + n * 3 <= size,
                size == self.mem@.len(),
                self.palette@.len() == 768,
                forall|j: int| 0 <= j < 768 ==> #[trigger] self.palette@[j] == (if first * 3 <= j
                    < first * 3 + k {
                    six_to_eight(self.mem@[table + (j - first * 3)])
                } else {
                    old(self).palette@[j]
                }),
                *self == (Machine { palette: self.palette, ..*old(self) }),
            decreases n * 3 - k,
        {
            self.palette[first * 3 + k] = to_eight(self.mem[table + k]);
            k += 1;
        }
        assert(self.palette@ =~= colors_loaded(
            old(self)@.palette, old(self)@.mem, color_table(*regs), first as int, n as int,
        ));
    }

    fn store_colors(&mut self, regs: &VMRegisters, first: usize, n: usize)
        requires
            old(self).wf(),
            n > 0 ==> first + n <= 256,
            n > 0 ==> regs.es <= 0xffff && color_table(*regs) + n * 3 <= old(self).mem@.len(),
        ensures
            final(self).wf(),
            final(self)@ == (State {
                mem: colors_stored(
                    old(self)@.mem, old(self)@.palette, color_table(*regs), first as int, n as int,
                ),
                ..old(self)@
            }),
    {
        if n == 0 {
            assert(self.mem@ =~= colors_stored(
                old(self)@.mem, old(self)@.palette, color_table(*regs), first as int, 0,
            ));
            return;
        }
        let table: usize = regs.es as usize * 16 + low16(regs.edx) as usize;
        let size: usize = self.mem.len();
        let mut k: usize = 0;
        while k < n * 3
            invariant
                k <= n * 3,
                0 < n,
                first + n <= 256,
                table == color_table(*regs),
                table + n * 3 <= size,
                size == self.mem@.len() == old(self).mem@.len(),
                self.palette@.len() == 768,
                forall|j: int| 0 <= j < size ==> #[trigger] self.mem@[j] == (if table <= j < table + k {
                    eight_to_six(self.palette@[first * 3 + (j - table)])
                } else {
                    old(self).mem@[j]
                }),
                *self == (Machine { mem: self.mem, ..*old(self) }),
            decreases n * 3 - k,
        {
            self.mem[table + k] = to_six(self.palette[first * 3 + k]);
            k += 1;
        }
        assert(self.mem@ =~= colors_stored(
            old(self)@.mem, old(self)@.palette, color_table(*regs), first as int, n as int,
        ));
    }

    /// The console gave a graphics buffer, mapped at `vaddr`; a physical address of
    /// zero means that it did not.
    pub fn graphics_entered(&mut self, paddr: u32, vaddr: u32, width: u16, height: u16, bpp: u8)
        requires
            old(self).wf(),
            width * height * ((bpp + 7) / 8) <= 0x1000_0000,
        ensures
            final(self).wf(),
            final(self)@ == (if paddr == 0 {
                old(self)@
            } else {
                State {
                    gfx_paddr: paddr,
                    gfx_vaddr: vaddr,
                    gfx_size: (width * height * ((bpp + 7) / 8)) as u32,
                    ..old(self)@
                }
            }),
    {
        if paddr == 0 {
            return;
        }
        self.gfx_paddr = paddr;
        self.gfx_vaddr = vaddr;
        self.gfx_size = pixel_bytes(width, height, bpp);
    }

    /// What to store in the graphics buffer: a header that marks all of it as
    /// changed, then the video memory. Nothing outside graphics mode.
    pub fn sync_graphics_buffer(&self) -> (r: Option<Vec<u8>>)
        requires
            self.wf(),
            self.gfx_vaddr != 0 ==> 0xA_0000 + self.gfx_size <= self.mem@.len(),
        ensures
            r.is_some() == (self@.gfx_vaddr != 0 && self@.gfx_size != 0),
            r matches Some(bytes) ==> bytes@ == seq![
                0u8, 0u8, 0u8, 0u8, 0xFFu8, 0xFFu8, 0xFFu8, 0xFFu8,
            ] + self@.mem.subrange(0xA_0000, 0xA_0000 + self@.gfx_size),
    {
        if self.gfx_vaddr == 0 || self.gfx_size == 0 {
            return None;
        }
        let mut bytes: Vec<u8> = vec![0u8, 0u8, 0u8, 0u8, 0xFFu8, 0xFFu8, 0xFFu8, 0xFFu8];
        let end: usize = 0xA_0000 + self.gfx_size as usize;
        let pixels: Vec<u8> = crate::text::sub_bytes(self.mem.as_slice(), 0xA_0000, end);
        crate::text::push_bytes(&mut bytes, pixels.as_slice());
        assert(bytes@ =~= seq![0u8, 0u8, 0u8, 0u8, 0xFFu8, 0xFFu8, 0xFFu8, 0xFFu8] + pixels@);
        Some(bytes)
    }
}

/// The bytes of a picture.
pub fn pixel_bytes(width: u16, height: u16, bpp: u8) -> (r: u32)
    requires
        width * height * ((bpp + 7) / 8) <= 0x1000_0000,
    ensures
        r == width * height * ((bpp + 7) / 8),
{
    assert(0 <= width * height <= 0xffff * 0xffff) by (nonlinear_arith)
        requires 0 <= width <= 0xffff, 0 <= height <= 0xffff;
    let area: u64 = width as u64 * height as u64;
    let depth: u64 = (bpp as u64 + 7) / 8;
    assert(0 <= area * depth <= 0xffff * 0xffff * 32) by (nonlinear_arith)
        requires 0 <= area <= 0xffff * 0xffff, 0 <= depth <= 32;
    (area * depth) as u32
}

/// The size of the mapping for a picture with its header, in whole pages.
pub fn graphics_mapping_size(pixel_bytes: u32) -> (r: u32)
    requires
        pixel_bytes <= 0x1000_0000,
    ensures
        r == (8 + pixel_bytes + 0xfff) / 0x1000 * 0x1000,
{
    (8 + pixel_bytes + 0xfff) / 0x1000 * 0x1000
}

/// The escape sequences that clear the screen and put the cursor in its corner.
pub const CLEAR_SCREEN: &'static str = "\x1b[2J\x1b[H";

/// The escape sequence that puts the cursor at a row and column.
pub fn write_ansi_cursor(row: u32, col: u32) -> (r: Vec<u8>)
    ensures
        r@ == seq![0x1Bu8, 0x5Bu8] + decimal(row as nat) + seq![0x3Bu8] + decimal(col as nat)
            + seq![0x48u8],
{
    let mut out: Vec<u8> = vec![0x1Bu8, 0x5Bu8];
    push_decimal(&mut out, row as u64);
    out.push(0x3B);
    push_decimal(&mut out, col as u64);
    out.push(0x48);
    assert(out@ =~= seq![0x1Bu8, 0x5Bu8] + decimal(row as nat) + seq![0x3Bu8] + decimal(col as nat)
        + seq![0x48u8]);
    out
}

/// The scan code and character of a key, if it has one.
pub open spec fn bios_key(code: u8) -> Option<(u8, u8)> {
    match code {
        // Editing keys
        0x08 => Some((0x0E, 0x08)),
        0x09 => Some((0x0F, 0x09)),
        0x0D => Some((0x1C, 0x0D)),
        0x1B => Some((0x01, 0x1B)),
        0x20 => Some((0x39, 0x20)),
        0x07 => Some((0x53, 0x00)),
        // Arrows: left, up, right, down
        0x21 => Some((0x4B, 0x00)),
        0x22 => Some((0x48, 0x00)),
        0x23 => Some((0x4D, 0x00)),
        0x24 => Some((0x50, 0x00)),
        // Digits
        0x30 => Some((0x0B, 0x30)),
        _ => if 0x31 <= code <= 0x39 {
            Some(((code - 0x2F) as u8, code))
        } else if 0x41 <= code <= 0x5A {
            // Letters give their lower case
            Some((letter_scancode(code), (code + 0x20) as u8))
        } else {
            match code {
                0x2C => Some((0x33, 0x2C)),
                0x2D => Some((0x0C, 0x2D)),
                0x2E => Some((0x34, 0x2E)),
                0x2F => Some((0x35, 0x2F)),
                0x3A => Some((0x27, 0x3B)),
                0x3B => Some((0x28, 0x27)),
                0x3D => Some((0x0D, 0x3D)),
                0x5B => Some((0x1A, 0x5B)),
                0x5C => Some((0x2B, 0x5C)),
                0x5D => Some((0x1B, 0x5D)),
                0x5F => Some((0x29, 0x60)),
                _ => None,
            }
        },
    }
}

/// The letters of a keyboard row, from the left.
pub open spec fn letter_rows() -> (Seq<u8>, Seq<u8>, Seq<u8>) {
    (
        seq![0x51u8, 0x57u8, 0x45u8, 0x52u8, 0x54u8, 0x59u8, 0x55u8, 0x49u8, 0x4Fu8, 0x50u8],
        seq![0x41u8, 0x53u8, 0x44u8, 0x46u8, 0x47u8, 0x48u8, 0x4Au8, 0x4Bu8, 0x4Cu8],
        seq![0x5Au8, 0x58u8, 0x43u8, 0x56u8, 0x42u8, 0x4Eu8, 0x4Du8],
    )
}

/// The scan codes of a row of letters are consecutive: 10h, 1Eh and 2Ch start the
/// rows of Q, A and Z.
pub open spec fn letter_scancode(code: u8) -> u8 {
    let (q, a, z) = letter_rows();
    if q.contains(code) {
        (0x10 + q.index_of(code)) as u8
    } else if a.contains(code) {
        (0x1E + a.index_of(code)) as u8
    } else {
        (0x2C + z.index_of(code)) as u8
    }
}

fn row_position(row: &[u8], code: u8) -> (r: Option<u8>)
    requires
        row@.len() <= 10,
        row@.no_duplicates(),
    ensures
        r.is_some() == row@.contains(code),
        r matches Some(i) ==> i == row@.index_of(code) && i < 10,
{
    let mut i: usize = 0;
    while i < row.len()
        invariant
            i <= row@.len() <= 10,
            row@.no_duplicates(),
            forall|k: int| 0 <= k < i ==> row@[k] != code,
        decreases row@.len() - i,
    {
        if row[i] == code {
            proof {
                let k = row@.index_of(code);
                assert(row@[i as int] == code);
                assert(row@[k] == code);
            }
            return Some(i as u8);
        }
        i += 1;
    }
    None
}

fn letter_code(code: u8) -> (r: u8)
    requires
        0x41 <= code <= 0x5A,
    ensures
        r == letter_scancode(code),
{
    let q: [u8; 10] = [0x51, 0x57, 0x45, 0x52, 0x54, 0x59, 0x55, 0x49, 0x4F, 0x50];
    let a: [u8; 9] = [0x41, 0x53, 0x44, 0x46, 0x47, 0x48, 0x4A, 0x4B, 0x4C];
    let z: [u8; 7] = [0x5A, 0x58, 0x43, 0x56, 0x42, 0x4E, 0x4D];
    assert(q@ =~= letter_rows().0);
    assert(a@ =~= letter_rows().1);
    assert(z@ =~= letter_rows().2);
    if let Some(i) = row_position(q.as_slice(), code) {
        return 0x10 + i;
    }
    if let Some(i) = row_position(a.as_slice(), code) {
        return 0x1E + i;
    }
    match row_position(z.as_slice(), code) {
        Some(i) => 0x2C + i,
        None => {
            proof {
                let (qs, as_, zs) = letter_rows();
                assert(qs[0] == 0x51 && qs[1] == 0x57 && qs[2] == 0x45 && qs[3] == 0x52 && qs[4] == 0x54
                    && qs[5] == 0x59 && qs[6] == 0x55 && qs[7] == 0x49 && qs[8] == 0x4F && qs[9] == 0x50);
                assert(as_[0] == 0x41 && as_[1] == 0x53 && as_[2] == 0x44 && as_[3] == 0x46 && as_[4]
                    == 0x47 && as_[5] == 0x48 && as_[6] == 0x4A && as_[7] == 0x4B && as_[8] == 0x4C);
                assert(zs[0] == 0x5A && zs[1] == 0x58 && zs[2] == 0x43 && zs[3] == 0x56 && zs[4] == 0x42
                    && zs[5] == 0x4E && zs[6] == 0x4D);
                assert(false);
            }
            0
        }
    }
}

/// The scan code and character of a key; none for modifiers and unknown keys.
pub fn keycode_to_bios(keycode: u8) -> (r: Option<(u8, u8)>)
    ensures
        r == bios_key(keycode),
{
    match keycode {
        0x08 => Some((0x0E, 0x08)),
        0x09 => Some((0x0F, 0x09)),
        0x0D => Some((0x1C, 0x0D)),
        0x1B => Some((0x01, 0x1B)),
        0x20 => Some((0x39, 0x20)),
        0x07 => Some((0x53, 0x00)),
        0x21 => Some((0x4B, 0x00)),
        0x22 => Some((0x48, 0x00)),
        0x23 => Some((0x4D, 0x00)),
        0x24 => Some((0x50, 0x00)),
        0x30 => Some((0x0B, 0x30)),
        0x2C => Some((0x33, 0x2C)),
        0x2D => Some((0x0C, 0x2D)),
        0x2E => Some((0x34, 0x2E)),
        0x2F => Some((0x35, 0x2F)),
        0x3A => Some((0x27, 0x3B)),
        0x3B => Some((0x28, 0x27)),
        0x3D => Some((0x0D, 0x3D)),
        0x5B => Some((0x1A, 0x5B)),
        0x5C => Some((0x2B, 0x5C)),
        0x5D => Some((0x1B, 0x5D)),
        0x5F => Some((0x29, 0x60)),
        _ => {
            if keycode >= 0x31 && keycode <= 0x39 {
                Some((keycode - 0x2F, keycode))
            } else if keycode >= 0x41 && keycode <= 0x5A {
                Some((letter_code(keycode), keycode + 0x20))
            } else {
                None
            }
        }
    }
}

/// What a keyboard service needs next.
#[derive(Clone, Copy, PartialEq, Eq, Structural, Debug)]
pub enum KeyboardStep {
    /// The registers hold the answer.
    Answered,
    /// Read a packet from the keyboard, without waiting.
    Poll,
    /// Read a byte from the console, and wait for it.
    ReadConsole,
    /// Answered; let other tasks run.
    Yield,
}

/// The key that a packet from the keyboard tells of: presses of known keys only.
pub open spec fn packet_key(packet: (u8, u8)) -> Option<(u8, u8)> {
    if packet.0 == 1 { bios_key(packet.1) } else { None }
}

/// The registers with a key.
pub open spec fn with_key(r: VMRegisters, key: (u8, u8)) -> VMRegisters {
    VMRegisters { eax: with_byte0(with_byte1(r.eax, key.0), key.1), ..r }
}

/// A key is there: the zero flag is clear.
pub open spec fn key_waiting(r: VMRegisters, key: (u8, u8)) -> VMRegisters {
    let k = with_key(r, key);
    VMRegisters { eflags: k.eflags & 0xffff_ffbf, ..k }
}

pub open spec fn takes_key(r: VMRegisters) -> bool {
    byte1(r.eax) == 0x00 || byte1(r.eax) == 0x10
}

pub open spec fn looks_for_key(r: VMRegisters) -> bool {
    byte1(r.eax) == 0x01 || byte1(r.eax) == 0x11
}

fn put_key(regs: &mut VMRegisters, key: (u8, u8))
    ensures
        *final(regs) == with_key(*old(regs), key),
{
    regs.set_ah(key.0);
    regs.set_al(key.1);
}

impl Machine {
    /// Serve INT 16h. A key that was looked at before comes first.
    pub fn bios_keyboard(&mut self, regs: &mut VMRegisters) -> (r: KeyboardStep)
        requires
            old(self).wf(),
        ensures
            final(self).wf(),
            match old(self).lookahead {
                Some(key) if takes_key(*old(regs)) => r is Answered && *final(regs) == with_key(
                    *old(regs), key,
                ) && final(self)@ == (State { lookahead: None, ..old(self)@ }),
                Some(key) if looks_for_key(*old(regs)) => r is Answered && *final(regs)
                    == key_waiting(*old(regs), key) && final(self)@ == old(self)@,
                _ => {
                    &&& final(self)@ == old(self)@
                    &&& r == (if takes_key(*old(regs)) || looks_for_key(*old(regs)) {
                        KeyboardStep::Poll
                    } else {
                        KeyboardStep::Answered
                    })
                    &&& *final(regs) == (if byte1(old(regs).eax) == 0x02 || byte1(old(regs).eax)
                        == 0x12 {
                        VMRegisters { eax: with_byte0(old(regs).eax, 0), ..*old(regs) }
                    } else {
                        *old(regs)
                    })
                },
            },
    {
        match regs.ah() {
            0x00 => self.take_lookahead(regs),
            0x10 => self.take_lookahead(regs),
            0x01 => self.peek_lookahead(regs),
            0x11 => self.peek_lookahead(regs),
            0x02 => {
                regs.set_al(0);
                KeyboardStep::Answered
            }
            0x12 => {
                regs.set_al(0);
                KeyboardStep::Answered
            }
            _ => KeyboardStep::Answered,
        }
    }

    fn take_lookahead(&mut self, regs: &mut VMRegisters) -> (r: KeyboardStep)
        requires
            old(self).wf(),
        ensures
            final(self).wf(),
            final(self)@ == (State { lookahead: None, ..old(self)@ }),
            match old(self).lookahead {
                Some(key) => r is Answered && *final(regs) == with_key(*old(regs), key),
                None => r is Poll && *final(regs) == *old(regs),
            },
    {
        match self.lookahead.take() {
            Some(key) => {
                put_key(regs, key);
                KeyboardStep::Answered
            }
            None => KeyboardStep::Poll,
        }
    }

    fn peek_lookahead(&mut self, regs: &mut VMRegisters) -> (r: KeyboardStep)
        requires
            old(self).wf(),
        ensures
            final(self).wf(),
            final(self)@ == old(self)@,
            match old(self).lookahead {
                Some(key) => r is Answered && *final(regs) == key_waiting(*old(regs), key),
                None => r is Poll && *final(regs) == *old(regs),
            },
    {
        match self.lookahead {
            Some(key) => {
                put_key(regs, key);
                regs.eflags = regs.eflags & 0xffff_ffbf;
                KeyboardStep::Answered
            }
            None => KeyboardStep::Poll,
        }
    }

    /// The keyboard was polled: a packet, or none. Packets that tell of no key are
    /// passed over. Without a key a taking service waits for the console, and a
    /// looking service sets the zero flag.
    pub fn keyboard_polled(&mut self, regs: &mut VMRegisters, packet: Option<(u8, u8)>) -> (r: KeyboardStep)
        requires
            old(self).wf(),
            takes_key(*old(regs)) || looks_for_key(*old(regs)),
        ensures
            final(self).wf(),
            match packet {
                Some(p) => match packet_key(p) {
                    Some(key) => {
                        &&& r is Answered
                        &&& *final(regs) == (if takes_key(*old(regs)) {
                            with_key(*old(regs), key)
                        } else {
                            key_waiting(*old(regs), key)
                        })
                        &&& final(self)@ == (if takes_key(*old(regs)) {
                            old(self)@
                        } else {
                            State { lookahead: Some(key), ..old(self)@ }
                        })
                    },
                    None => r is Poll && *final(regs) == *old(regs) && final(self)@ == old(self)@,
                },
                None => {
                    &&& final(self)@ == old(self)@
                    &&& r == (if takes_key(*old(regs)) {
                        KeyboardStep::ReadConsole
                    } else {
                        KeyboardStep::Yield
                    })
                    &&& *final(regs) == (if takes_key(*old(regs)) {
                        *old(regs)
                    } else {
                        VMRegisters { eflags: old(regs).eflags | 0x40, ..*old(regs) }
                    })
                },
            },
    {
        let ah: u8 = regs.ah();
        let taking: bool = ah == 0x00 || ah == 0x10;
        match packet {
            Some((action, code)) => {
                let key: Option<(u8, u8)> = if action == 1 { keycode_to_bios(code) } else { None };
                match key {
                    Some(k) => {
                        put_key(regs, k);
                        if !taking {
                            self.lookahead = Some(k);
                            regs.eflags = regs.eflags & 0xffff_ffbf;
                        }
                        KeyboardStep::Answered
                    }
                    None => KeyboardStep::Poll,
                }
            }
            None => {
                if taking {
                    KeyboardStep::ReadConsole
                } else {
                    regs.eflags = regs.eflags | 0x40;
                    KeyboardStep::Yield
                }
            }
        }
    }
}

/// A byte came from the console, or none did: then it is read again.
pub fn console_read(regs: &mut VMRegisters, byte: Option<u8>) -> (r: KeyboardStep)
    ensures
        match byte {
            Some(b) => r is Answered && *final(regs) == with_key(*old(regs), (0, b)),
            None => r is ReadConsole && *final(regs) == *old(regs),
        },
{
    match byte {
        Some(b) => {
            put_key(regs, (0, b));
            KeyboardStep::Answered
        }
        None => KeyboardStep::ReadConsole,
    }
}

/// A colour value that is read in six bits and set again becomes darker by at most
/// five steps, and never lighter.
pub proof fn color_round_trip_is_close(v: u8)
    ensures
        eight_to_six(v) <= 63,
        six_to_eight(eight_to_six(v)) <= v,
        v - six_to_eight(eight_to_six(v)) <= 5,
{
}

} // verus!
