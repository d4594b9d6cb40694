//! What holds of running programs: loading, memory, interrupts, the screen and the keyboard.
use vstd::prelude::*;

use crate::api::compat::VMRegisters;
use crate::bits::{byte0, byte1, byte2, byte3, with_byte1, word0};
use crate::dos::api::int21;
use crate::dos::arena::{
    apart, arena_alloc, arena_free, arena_largest, arena_resize, block_end, in_use, lemma_slot_of,
    slot_of, Blocks,
};
use crate::dos::bios::{bios_key, key_waiting, packet_key, video_service, with_key};
use crate::dos::descriptors::descriptor;
use crate::dos::dpmi::{call_registers, call_results, int31};
use crate::dos::files::{bare_directory, directory_of, full_path, last_backslash};
use crate::dos::laws::{calls_service, carry};
use crate::dos::loader::{
    all_delivered, blank_registers, claimed, com_loaded, compat_step, delivered, fault, mz_loaded,
    mz_start, pushed, relocated, relocated_one, timer_tick, CompatStep, Fault, MzHeader,
};
use crate::dos::machine::{mem16, mem32, put16, put32, HostCall, State};
use crate::dos::reply::{
    change_told, date_told, day_of_week, time_told, weekdays_follow_each_other,
};
use crate::time::calendar::{
    day_number, days_before_year, leap_year, lemma_steps, month_start,
};

verus! {

/// A program lies behind its prefix of 256 bytes as it is in its file, and starts at its first
/// byte. The prefix begins with the instruction that ends the program.
pub proof fn com_programs_lie_behind_their_prefix(mem: Seq<u8>, image: Seq<u8>)
    requires
        0x11_1000 <= mem.len(),
        0x8100 + image.len() <= mem.len(),
    ensures
        ({
            let m = com_loaded(mem, image);
            let r = blank_registers();
            &&& m.len() == mem.len()
            &&& m.subrange(0x8100, 0x8100int + image.len()) == image
            &&& m[0x8000] == 0xCD && m[0x8001] == 0x20
            &&& r.cs * 16 + r.eip == 0x8100
            &&& r.ds * 16 == 0x8000 && r.es * 16 == 0x8000 && r.ss * 16 == 0x8000
            &&& forall|i: int|
                0x8100 + image.len() <= i < mem.len() ==> #[trigger] m[i] == mem[i]
        }),
{
    let m = com_loaded(mem, image);
    assert(m.subrange(0x8100, 0x8100int + image.len()) =~= image);
}

/// Where a word to relocate lies.
pub open spec fn fix_at(fix: (u16, u16)) -> int {
    0x8100 + fix.1 * 16 + fix.0
}

#[verifier::rlimit(50)]
proof fn lemma_fixed(mem: Seq<u8>, fixes: Seq<(u16, u16)>, n: nat, k: int)
    requires
        n <= fixes.len(),
        forall|i: int| 0 <= i < fixes.len() ==> fix_at(#[trigger] fixes[i]) + 2 <= mem.len(),
        forall|i: int, j: int|
            0 <= i < fixes.len() && 0 <= j < fixes.len() && i != j ==> fix_at(#[trigger] fixes[i]) + 2
                <= fix_at(#[trigger] fixes[j]) || fix_at(fixes[j]) + 2 <= fix_at(fixes[i]),
        0 <= k < mem.len(),
    ensures
        relocated(mem, fixes, n).len() == mem.len(),
        forall|i: int|
            0 <= i < n ==> mem16(relocated(mem, fixes, n), fix_at(#[trigger] fixes[i])) as int == (
            mem16(mem, fix_at(fixes[i])) + 0x810) % 0x1_0000,
        (forall|i: int|
            0 <= i < n ==> !(fix_at(#[trigger] fixes[i]) <= k < fix_at(fixes[i]) + 2)) ==> relocated(
            mem, fixes, n,
        )[k] == mem[k],
        forall|i: int|
            n <= i < fixes.len() ==> mem16(relocated(mem, fixes, n), fix_at(#[trigger] fixes[i]))
                == mem16(mem, fix_at(fixes[i])),
    decreases n,
{
    if n > 0 {
        lemma_fixed(mem, fixes, (n - 1) as nat, k);
        let prev = relocated(mem, fixes, (n - 1) as nat);
        let cur = relocated(mem, fixes, n);
        let last = fixes[n - 1];
        assert(cur == relocated_one(prev, last));
        let v = ((mem16(prev, fix_at(last)) + 0x810) % 0x1_0000) as u16;
        assert forall|i: int| 0 <= i < fixes.len() implies mem16(cur, fix_at(#[trigger] fixes[i]))
            == (if i == n - 1 { v } else { mem16(prev, fix_at(fixes[i])) }) by {
            crate::dos::machine::memory_words_are_independent(
                prev, fix_at(last), v, fix_at(fixes[i]),
            );
            assert(fix_at(fixes[i]) + 2 <= mem.len());
            assert(fix_at(fixes[n - 1]) + 2 <= mem.len());
        }
    }
}

/// An MZ program lies where a COM program would. Each word that its file lists as a segment is
/// moved by the place of the program, and every other byte is as it is in the file. It starts at
/// the place that its header tells.
#[verifier::rlimit(50)]
pub proof fn mz_programs_are_moved(
    mem: Seq<u8>, image: Seq<u8>, fixes: Seq<(u16, u16)>, i: int, k: int,
)
    requires
        0x11_1000 <= mem.len(),
        0x8100 + image.len() <= mem.len(),
        forall|j: int|
            0 <= j < fixes.len() ==> (#[trigger] fixes[j]).1 * 16 + fixes[j].0 + 2 <= image.len(),
        forall|a: int, b: int|
            0 <= a < fixes.len() && 0 <= b < fixes.len() && a != b ==> fix_at(#[trigger] fixes[a]) + 2
                <= fix_at(#[trigger] fixes[b]) || fix_at(fixes[b]) + 2 <= fix_at(fixes[a]),
        0 <= i < fixes.len(),
        0 <= k < image.len(),
        forall|j: int|
            0 <= j < fixes.len() ==> !(fix_at(#[trigger] fixes[j]) <= 0x8100 + k < fix_at(fixes[j]) + 2),
    ensures
        ({
            let m = mz_loaded(mem, image, fixes);
            &&& mem16(m, fix_at(fixes[i])) as int == (mem16(image, fix_at(fixes[i]) - 0x8100) + 0x810)
                % 0x1_0000
            &&& m[0x8100 + k] == image[k]
        }),
{
    let c = com_loaded(mem, image);
    com_programs_lie_behind_their_prefix(mem, image);
    assert forall|j: int| 0 <= j < image.len() implies #[trigger] image[j] == c[0x8100 + j] by {
        assert(c.subrange(0x8100, 0x8100int + image.len())[j] == c[0x8100 + j]);
    }
    assert forall|j: int| 0 <= j < fixes.len() implies fix_at(#[trigger] fixes[j]) + 2 <= c.len() by {
        assert(fixes[j].1 * 16 + fixes[j].0 + 2 <= image.len());
    }
    lemma_fixed(c, fixes, fixes.len(), 0x8100 + k);
    let at = fix_at(fixes[i]) - 0x8100;
    assert(fixes[i].1 * 16 + fixes[i].0 + 2 <= image.len());
    assert(image[at] == c[0x8100 + at] && image[at + 1] == c[0x8100 + (at + 1)]);
}

proof fn lemma_lowest(b: Blocks, s: int, n: int) -> (t: int)
    requires
        b.free_at(s, n),
    ensures
        b.lowest_free(t, n),
        b.start <= t <= s,
    decreases s,
{
    if exists|r: int| r < s && #[trigger] b.free_at(r, n) {
        let r = choose|r: int| r < s && #[trigger] b.free_at(r, n);
        lemma_lowest(b, r, n)
    } else {
        s
    }
}

/// Paragraphs that are given out were free: they lie in the memory of programs and touch no block
/// that is in use. The block takes one free slot of the table, and all other slots stay. Nothing is
/// given out only where no slot is free, or no run of that size.
pub proof fn memory_given_out_was_free(b: Blocks, n: u16)
    requires
        b.wf(),
    ensures
        ({
            let (a, r) = arena_alloc(b, n);
            &&& a.start == b.start
            &&& r matches Some(s) ==> {
                &&& b.start <= s && s + n <= 0xA000
                &&& forall|i: int|
                    0 <= i < 32 && (#[trigger] b.table[i]).0 != 0 ==> s + n <= b.table[i].0
                        || b.table[i].0 + b.table[i].1 <= s
                &&& exists|i: int|
                    0 <= i < 32 && (#[trigger] b.table[i]).0 == 0 && a.table == b.table.update(i, (s, n))
                &&& forall|t: int| t < s ==> !#[trigger] b.free_at(t, n as int)
            }
            &&& r is None ==> a == b && ((forall|i: int| 0 <= i < 32 ==> (#[trigger] b.table[i]).0 != 0)
                || forall|t: int| !#[trigger] b.free_at(t, n as int))
        }),
{
    lemma_slot_of(b.table, 0);
    if slot_of(b.table, 0) is Some && b.has_room(n as int) {
        let s = choose|s: int| #[trigger] b.free_at(s, n as int);
        let t = lemma_lowest(b, s, n as int);
        assert(b.lowest_free(t as u16 as int, n as int));
        let u = choose|u: u16| #[trigger] b.lowest_free(u as int, n as int);
        assert(b.lowest_free(u as int, n as int));
        assert forall|i: int| 0 <= i < 32 && (#[trigger] b.table[i]).0 != 0 implies u + n <= b.table[i].0
            || b.table[i].0 + b.table[i].1 <= u by {
            assert(in_use(b.table[i]));
            assert(apart(u as int, n as int, b.table[i]));
        }
        let i = slot_of(b.table, 0).unwrap();
        assert(b.table[i].0 == 0);
        assert(arena_alloc(b, n).0.table == b.table.update(i, (u, n)));
    }
}

proof fn lemma_largest(b: Blocks, n: int) -> (m: int)
    requires
        n >= 0,
        forall|k: int| k > n ==> !#[trigger] b.has_room(k),
    ensures
        0 <= m <= n,
        b.largest_run(m),
    decreases n,
{
    if n == 0 || b.has_room(n) {
        n
    } else {
        assert forall|k: int| k > n - 1 implies !#[trigger] b.has_room(k) by {
            if k == n {
                assert(!b.has_room(n));
            }
        }
        lemma_largest(b, n - 1)
    }
}

/// The largest block that a program could have is as large as the largest run of free paragraphs: there
/// is one, and none is larger.
pub proof fn the_largest_block_is_told(b: Blocks, s: int, n: int)
    requires
        b.wf(),
    ensures
        arena_largest(b) > 0 ==> exists|t: int| #[trigger] b.free_at(t, arena_largest(b) as int),
        n > arena_largest(b) ==> !b.free_at(s, n),
{
    assert forall|k: int| k > 0xA000 implies !#[trigger] b.has_room(k) by {
        if b.has_room(k) {
            let t = choose|t: int| #[trigger] b.free_at(t, k);
            assert(b.start <= t && t + k <= 0xA000);
        }
    }
    let m = lemma_largest(b, 0xA000);
    assert(b.largest_run(m as u16 as int));
    let l = arena_largest(b);
    assert(b.largest_run(l as int));
    if n > l && b.free_at(s, n) {
        assert(b.has_room(n));
    }
}

/// A block that is freed is gone, and all other blocks stay. A block that is resized begins where it
/// was, has the size that was asked for, ends in the memory of programs, and touches no other block;
/// else it stays as it was.
pub proof fn blocks_are_freed_and_resized(b: Blocks, i: int, n: u16)
    requires
        b.wf(),
        0 <= i < 32,
        b.table[i].0 != 0,
        forall|j: int| 0 <= j < 32 && j != i ==> (#[trigger] b.table[j]).0 != b.table[i].0,
    ensures
        ({
            let s = b.table[i].0;
            let (f, freed) = arena_free(b, s);
            let (z, resized) = arena_resize(b, s, n);
            let fits = s + n <= 0xA000 && forall|j: int|
                0 <= j < 32 && j != i && (#[trigger] b.table[j]).0 != 0 ==> s + n <= b.table[j].0
                    || b.table[j].0 + b.table[j].1 <= s;
            &&& freed && f.start == b.start && f.table == b.table.update(i, (0u16, 0u16))
            &&& resized == fits
            &&& resized ==> z.start == b.start && z.table == b.table.update(i, (s, n))
            &&& !resized ==> z == b
        }),
{
    let s = b.table[i].0;
    lemma_slot_of(b.table, s);
    assert(slot_of(b.table, s) == Some(i)) by {
        match slot_of(b.table, s) {
            Some(j) => {
                if j != i {
                    assert(b.table[j].0 != b.table[i].0);
                }
            },
            None => {
                assert(b.table[i].0 != s);
            },
        }
    }
    assert forall|j: int| 0 <= j < 32 implies in_use(#[trigger] b.table[j]) == (b.table[j].0 != 0)
        && block_end(b.table[j]) == b.table[j].0 + b.table[j].1 by {}
    let fits = s + n <= 0xA000 && forall|j: int|
        0 <= j < 32 && j != i && (#[trigger] b.table[j]).0 != 0 ==> s + n <= b.table[j].0
            || b.table[j].0 + b.table[j].1 <= s;
    assert(b.can_resize(s, n as int) == fits);
}

/// A program that asks for memory gets the segment of its block in AX, or the error 8 and, in BX,
/// what is the largest block that it could have. One that gives memory back has no error.
#[verifier::rlimit(50)]
pub proof fn programs_are_told_their_memory(m: State, r: VMRegisters)
    requires
        calls_service(r, 0x48),
    ensures
        ({
            let o = int21(m, r);
            let (a, s) = arena_alloc(m.arena, word0(r.ebx));
            &&& o.m == (State { arena: a, ..m })
            &&& s matches Some(segment) ==> o.regs.eax as int % 0x1_0000 == segment && !carry(o.regs)
            &&& s is None ==> o.m == m && o.regs.eax % 0x1_0000 == 8 && carry(o.regs)
                && o.regs.ebx as int % 0x1_0000 == arena_largest(m.arena)
        }),
{
    let (a, s) = arena_alloc(m.arena, word0(r.ebx));
    assert((r.eflags | 1) % 2 == 1 && (r.eflags & 0xffff_fffe) % 2 == 0) by {
        crate::dos::running::lemma_carry_bits(r.eflags);
    }
    crate::bits::lemma_parts_independent(r.eax, 0, 8);
    crate::bits::lemma_parts_independent(r.ebx, 0, arena_largest(m.arena));
    if let Some(segment) = s {
        crate::bits::lemma_parts_independent(r.eax, 0, segment);
    }
}

pub proof fn lemma_carry_bits(x: u32)
    by (bit_vector)
    ensures
        (x | 1) % 2 == 1,
        (x & 0xffff_fffe) % 2 == 0,
{
}

/// The instruction that a program is at.
pub open spec fn instruction(m: State, r: VMRegisters) -> u8 {
    m.mem[r.cs * 16 + r.eip]
}

/// A program in 8086 mode, with room on its stack.
pub open spec fn runs(m: State, r: VMRegisters) -> bool {
    &&& m.wf()
    &&& r.cs <= 0xffff
    &&& r.ss <= 0xffff
    &&& r.eip <= 0xffff
    &&& 2 <= r.esp < 0xfffe
}

/// An instruction that pushes the flags puts them on the stack, and the program goes on behind it.
#[verifier::rlimit(50)]
pub proof fn flags_are_pushed(m: State, r: VMRegisters)
    requires
        runs(m, r),
        instruction(m, r) == 0x9C,
    ensures
        ({
            let (after, regs, f) = fault(m, r);
            let top = r.ss * 16 + r.esp;
            &&& f is Continue && regs.eip == r.eip + 1 && regs.esp == r.esp - 2
            &&& after.mem[top - 2] == byte0(r.eflags) && after.mem[top - 1] == byte1(r.eflags)
        }),
{
    reveal(fault);
}

/// An instruction that pops the flags takes them from the stack, and the program goes on behind it.
#[verifier::rlimit(50)]
pub proof fn flags_are_popped(m: State, r: VMRegisters)
    requires
        runs(m, r),
        instruction(m, r) == 0x9D,
    ensures
        ({
            let (after, regs, f) = fault(m, r);
            let top = r.ss * 16 + r.esp;
            &&& f is Continue && regs.eip == r.eip + 1 && regs.esp == r.esp + 2 && after == m
            &&& regs.eflags == (r.eflags & 0xFFF2_0000) | (m.mem[top] + m.mem[top + 1] * 256) as u32
        }),
{
    reveal(fault);
    let top = r.ss * 16 + r.esp;
    assert(mem16(m.mem, top) == m.mem[top] + m.mem[top + 1] * 256);
}

/// An interrupt that a program calls is told by its number. Interrupts are switched off and on where the
/// program says so, and it goes on behind that. Any other instruction ends the program.
#[verifier::rlimit(50)]
pub proof fn interrupts_are_called_and_switched(m: State, r: VMRegisters)
    requires
        runs(m, r),
        instruction(m, r) != 0x9C,
        instruction(m, r) != 0x9D,
        instruction(m, r) != 0xCF,
    ensures
        ({
            let op = instruction(m, r);
            let (after, regs, f) = fault(m, r);
            &&& op == 0xCD ==> f == Fault::Interrupt(m.mem[r.cs * 16 + r.eip + 1]) && after == m && regs
                == r
            &&& op == 0xFA ==> f is Continue && regs.eip == r.eip + 1 && !after.interrupts && after.mem
                == m.mem
            &&& op == 0xFB ==> f is Continue && regs.eip == r.eip + 1 && after.interrupts && after.mem
                == m.mem
            &&& op != 0xCD && op != 0xFA && op != 0xFB ==> f is Stop
        }),
{
    reveal(fault);
}

#[verifier::rlimit(50)]
proof fn lemma_told_mode(m: State, get: VMRegisters)
    requires
        calls_service(get, 0x0F),
    ensures
        ({
            let o = video_service(m, get);
            &&& o.m == m
            &&& o.regs.eax % 0x100 == m.vga_mode
            &&& (o.regs.eax / 0x100) % 0x100 == (if m.vga_mode == 0x13 { 40u32 } else { 80u32 })
        }),
{
    let cols: u8 = if m.vga_mode == 0x13 { 40 } else { 80 };
    crate::bits::lemma_parts_independent(get.eax, cols, 0);
    crate::bits::lemma_parts_independent(with_byte1(get.eax, cols), m.vga_mode, 0);
}

#[verifier::rlimit(50)]
proof fn lemma_set_mode(m: State, set: VMRegisters)
    requires
        calls_service(set, 0x00),
        set.eax % 0x80 == 0x03 || set.eax % 0x80 == 0x13,
    ensures
        ({
            let o = video_service(m, set);
            &&& o.m.vga_mode == set.eax % 0x80
            &&& set.eax % 0x80 == 0x13 ==> o.calls == seq![HostCall::EnterGraphics(320, 200, 8)]
            &&& set.eax % 0x80 == 0x03 ==> o.calls.last() == HostCall::ClearScreen && o.m.gfx_paddr
                == 0
        }),
{
    lemma_low_bits(set.eax);
    assert(byte0(set.eax) % 128 == set.eax % 0x80);
    assert(byte1(set.eax) == 0);
    let o = video_service(m, set);
    assert(o.m.vga_mode == set.eax % 0x80);
}

proof fn lemma_low_bits(x: u32)
    by (bit_vector)
    ensures
        (x % 0x100) % 0x80 == x % 0x80,
{
}

/// The mode of the screen that a program sets is the one that it is told, with 40 columns in
/// graphics and 80 in text.
pub proof fn the_mode_of_the_screen_is_kept(m: State, set: VMRegisters, get: VMRegisters)
    requires
        calls_service(set, 0x00),
        calls_service(get, 0x0F),
        set.eax % 0x80 == 0x03 || set.eax % 0x80 == 0x13,
    ensures
        ({
            let first = video_service(m, set);
            let o = video_service(first.m, get);
            &&& o.regs.eax % 0x100 == set.eax % 0x80
            &&& (o.regs.eax / 0x100) % 0x100 == (if set.eax % 0x80 == 0x13 { 40u32 } else { 80u32 })
            &&& set.eax % 0x80 == 0x13 ==> first.calls == seq![HostCall::EnterGraphics(320, 200, 8)]
            &&& set.eax % 0x80 == 0x03 ==> first.calls.last() == HostCall::ClearScreen
                && first.m.gfx_paddr == 0
            &&& o.m == first.m
        }),
{
    lemma_set_mode(m, set);
    lemma_told_mode(video_service(m, set).m, get);
}

/// Characters are written to the screen as they are, as often as told, and the cursor goes to the
/// row in DH and the column in DL, which the terminal counts from one.
pub proof fn characters_go_to_the_screen(m: State, r: VMRegisters)
    ensures
        calls_service(r, 0x0E) ==> video_service(m, r).calls == seq![
            HostCall::WriteByte(1, (r.eax % 0x100) as u8),
        ],
        calls_service(r, 0x09) ==> video_service(m, r).calls.len() == r.ecx % 0x1_0000 && forall|i: int|
            0 <= i < r.ecx % 0x1_0000 ==> #[trigger] video_service(m, r).calls[i]
                == HostCall::WriteByte(1, (r.eax % 0x100) as u8),
        calls_service(r, 0x02) ==> video_service(m, r).calls == seq![
            HostCall::MoveCursor(
                ((r.edx / 0x100) % 0x100 + 1) as u32, (r.edx % 0x100 + 1) as u32,
            ),
        ],
        calls_service(r, 0x06) && r.eax % 0x100 == 0 ==> video_service(m, r).calls == seq![
            HostCall::ClearScreen,
        ],
{
}

/// A colour is set from DH, CH and CL: red, green and blue, of six bits each. Other colours stay.
/// The console gets the palette.
#[verifier::rlimit(50)]
pub proof fn one_colour_is_set(m: State, r: VMRegisters, k: int)
    requires
        calls_service(r, 0x10),
        r.eax % 0x100 == 0x10,
        r.ebx % 0x1_0000 < 256,
        m.palette.len() == 768,
        0 <= k < 768,
    ensures
        ({
            let o = video_service(m, r);
            let at = (r.ebx as int % 0x1_0000) * 3;
            let red = (r.edx as int / 0x100) % 0x100;
            let green = (r.ecx as int / 0x100) % 0x100;
            let blue = r.ecx as int % 0x100;
            &&& o.calls == seq![HostCall::PushPalette]
            &&& o.m.palette[at] as int == red * 255 / 63 % 256
            &&& o.m.palette[at + 1] as int == green * 255 / 63 % 256
            &&& o.m.palette[at + 2] as int == blue * 255 / 63 % 256
            &&& !(at <= k < at + 3) ==> o.m.palette[k] == m.palette[k]
        }),
{
}

/// A run of colours is set from the table at ES:DX, three bytes each, as far as the palette goes.
#[verifier::rlimit(50)]
pub proof fn a_run_of_colours_is_set(m: State, r: VMRegisters, i: int, c: int)
    requires
        calls_service(r, 0x10),
        r.eax % 0x100 == 0x12,
        m.palette.len() == 768,
        0 <= i < 256,
        0 <= c < 3,
    ensures
        ({
            let o = video_service(m, r);
            let first = r.ebx as int % 0x1_0000;
            let count = r.ecx as int % 0x1_0000;
            let table = r.es * 16 + r.edx as int % 0x1_0000;
            o.m.palette[i * 3 + c] as int == (if first <= i < first + count {
                m.mem[table + (i - first) * 3 + c] * 255 / 63 % 256
            } else {
                m.palette[i * 3 + c] as int
            })
        }),
{
}

/// The letters of the keyboard, row by row from the left.
pub open spec fn top() -> Seq<u8> {
    seq![0x51u8, 0x57u8, 0x45u8, 0x52u8, 0x54u8, 0x59u8, 0x55u8, 0x49u8, 0x4Fu8, 0x50u8]
}

pub open spec fn middle() -> Seq<u8> {
    seq![0x41u8, 0x53u8, 0x44u8, 0x46u8, 0x47u8, 0x48u8, 0x4Au8, 0x4Bu8, 0x4Cu8]
}

pub open spec fn low() -> Seq<u8> {
    seq![0x5Au8, 0x58u8, 0x43u8, 0x56u8, 0x42u8, 0x4Eu8, 0x4Du8]
}

proof fn lemma_place(row: Seq<u8>, i: int)
    requires
        row.no_duplicates(),
        0 <= i < row.len(),
    ensures
        row.contains(row[i]),
        row.index_of(row[i]) == i,
{
    assert(row.contains(row[i]));
}

/// The key at a place in a row of letters has the scan code of that place and gives its letter in
/// lower case. Digits have theirs from one to nine, then zero.
pub proof fn keys_have_their_places(i: int)
    ensures
        0 <= i < 10 ==> bios_key(top()[i]) == Some(((0x10 + i) as u8, (top()[i] + 0x20) as u8)),
        0 <= i < 9 ==> bios_key(middle()[i]) == Some(((0x1E + i) as u8, (middle()[i] + 0x20) as u8)),
        0 <= i < 7 ==> bios_key(low()[i]) == Some(((0x2C + i) as u8, (low()[i] + 0x20) as u8)),
        1 <= i <= 9 ==> bios_key((0x30 + i) as u8) == Some(((i + 1) as u8, (0x30 + i) as u8)),
        bios_key(0x30) == Some((0x0Bu8, 0x30u8)),
{
    let (q, a, z) = crate::dos::bios::letter_rows();
    assert(q == top() && a == middle() && z == low());
    if 0 <= i < 10 {
        lemma_place(q, i);
    }
    if 0 <= i < 9 {
        lemma_place(a, i);
        assert(!q.contains(a[i]));
    }
    if 0 <= i < 7 {
        lemma_place(z, i);
        assert(!q.contains(z[i]) && !a.contains(z[i]));
    }
}

/// The other keys: code, scan code and character.
pub open spec fn other_keys() -> Seq<(u8, u8, u8)> {
    seq![
        (0x08u8, 0x0Eu8, 0x08u8), (0x09u8, 0x0Fu8, 0x09u8), (0x0Du8, 0x1Cu8, 0x0Du8),
        (0x1Bu8, 0x01u8, 0x1Bu8), (0x20u8, 0x39u8, 0x20u8), (0x07u8, 0x53u8, 0x00u8),
        (0x21u8, 0x4Bu8, 0x00u8), (0x22u8, 0x48u8, 0x00u8), (0x23u8, 0x4Du8, 0x00u8),
        (0x24u8, 0x50u8, 0x00u8), (0x2Cu8, 0x33u8, 0x2Cu8), (0x2Du8, 0x0Cu8, 0x2Du8),
        (0x2Eu8, 0x34u8, 0x2Eu8), (0x2Fu8, 0x35u8, 0x2Fu8), (0x3Au8, 0x27u8, 0x3Bu8),
        (0x3Bu8, 0x28u8, 0x27u8), (0x3Du8, 0x0Du8, 0x3Du8), (0x5Bu8, 0x1Au8, 0x5Bu8),
        (0x5Cu8, 0x2Bu8, 0x5Cu8), (0x5Du8, 0x1Bu8, 0x5Du8), (0x5Fu8, 0x29u8, 0x60u8),
    ]
}

/// The keys beside letters and digits give what the table says.
pub proof fn other_keys_are_known(i: int)
    requires
        0 <= i < other_keys().len(),
    ensures
        bios_key(other_keys()[i].0) == Some((other_keys()[i].1, other_keys()[i].2)),
{
    let k = other_keys();

}

/// The bytes of a register, low byte first.
pub open spec fn four_bytes(c: Seq<u8>, at: int, x: u32) -> bool {
    c[at] == byte0(x) && c[at + 1] == byte1(x) && c[at + 2] == byte2(x) && c[at + 3] == byte3(x)
}

/// The bytes of the low half of a register.
pub open spec fn two_bytes(c: Seq<u8>, at: int, x: u32) -> bool {
    c[at] == byte0(x) && c[at + 1] == byte1(x)
}

/// Each register has its bytes in the structure of a call.
pub open spec fn call_bytes(c: Seq<u8>, a: int, r: VMRegisters) -> bool {
    &&& four_bytes(c, a, r.edi)
    &&& four_bytes(c, a + 4, r.esi)
    &&& four_bytes(c, a + 8, r.ebp)
    &&& four_bytes(c, a + 16, r.ebx)
    &&& four_bytes(c, a + 20, r.edx)
    &&& four_bytes(c, a + 24, r.ecx)
    &&& four_bytes(c, a + 28, r.eax)
    &&& two_bytes(c, a + 32, r.eflags)
    &&& two_bytes(c, a + 34, r.es)
    &&& two_bytes(c, a + 36, r.ds)
    &&& two_bytes(c, a + 38, r.fs)
    &&& two_bytes(c, a + 40, r.gs)
}

proof fn lemma_put_word(mem: Seq<u8>, at: int, x: u32)
    requires
        0 <= at,
        at + 2 <= mem.len(),
    ensures
        put16(mem, at, word0(x)) == mem.update(at, byte0(x)).update(at + 1, byte1(x)),
{
    lemma_word_halves(x);
    assert(word0(x) % 256 == byte0(x));
    assert(word0(x) / 256 == byte1(x));
}

#[verifier::rlimit(50)]
proof fn lemma_results(mem: Seq<u8>, a: int, r: VMRegisters)
    requires
        0 <= a,
        a + 50 <= mem.len(),
    ensures
        call_bytes(call_results(mem, a, r), a, r),
        call_results(mem, a, r).len() == mem.len(),
        forall|i: int|
            a + 42 <= i < mem.len() ==> #[trigger] call_results(mem, a, r)[i] == mem[i],
{
    let m1 = put32(put32(put32(put32(mem, a + 28, r.eax), a + 16, r.ebx), a + 24, r.ecx), a + 20, r.edx);
    let m2 = put32(put32(put32(m1, a + 4, r.esi), a, r.edi), a + 8, r.ebp);
    lemma_put_word(m2, a + 32, r.eflags);
    let m3 = put16(m2, a + 32, word0(r.eflags));
    lemma_put_word(m3, a + 34, r.es);
    let m4 = put16(m3, a + 34, word0(r.es));
    lemma_put_word(m4, a + 36, r.ds);
    let m5 = put16(m4, a + 36, word0(r.ds));
    lemma_put_word(m5, a + 38, r.fs);
    lemma_put_word(put16(m5, a + 38, word0(r.fs)), a + 40, r.gs);
}

proof fn lemma_four_bytes(c: Seq<u8>, at: int, x: u32)
    requires
        four_bytes(c, at, x),
    ensures
        mem32(c, at) == x,
{
    crate::bits::bytes_round_trip(x, 0, 0, 0, 0);
}

proof fn lemma_two_bytes(c: Seq<u8>, at: int, x: u32)
    requires
        two_bytes(c, at, x),
    ensures
        mem16(c, at) == x % 0x1_0000,
{
    lemma_word_halves(x);
    assert(byte0(x) + byte1(x) * 256 == x % 0x1_0000);
}

proof fn lemma_read_back(c: Seq<u8>, a: int, r: VMRegisters)
    requires
        call_bytes(c, a, r),
    ensures
        ({
            let s = call_registers(c, a);
            &&& s.eax == r.eax && s.ebx == r.ebx && s.ecx == r.ecx && s.edx == r.edx
            &&& s.esi == r.esi && s.edi == r.edi && s.ebp == r.ebp
            &&& s.eflags == r.eflags % 0x1_0000
            &&& s.es == r.es % 0x1_0000 && s.ds == r.ds % 0x1_0000
            &&& s.fs == r.fs % 0x1_0000 && s.gs == r.gs % 0x1_0000
        }),
{
    lemma_four_bytes(c, a, r.edi);
    lemma_four_bytes(c, a + 4, r.esi);
    lemma_four_bytes(c, a + 8, r.ebp);
    lemma_four_bytes(c, a + 16, r.ebx);
    lemma_four_bytes(c, a + 20, r.edx);
    lemma_four_bytes(c, a + 24, r.ecx);
    lemma_four_bytes(c, a + 28, r.eax);
    lemma_two_bytes(c, a + 32, r.eflags);
    lemma_two_bytes(c, a + 34, r.es);
    lemma_two_bytes(c, a + 36, r.ds);
    lemma_two_bytes(c, a + 38, r.fs);
    lemma_two_bytes(c, a + 40, r.gs);
}

/// A program in protected mode reads back from the structure of a call what the call left in the
/// registers.
pub proof fn results_of_calls_are_read_back(mem: Seq<u8>, a: int, r: VMRegisters)
    requires
        0 <= a,
        a + 50 <= mem.len(),
    ensures
        ({
            let s = call_registers(call_results(mem, a, r), a);
            &&& s.eax == r.eax && s.ebx == r.ebx && s.ecx == r.ecx && s.edx == r.edx
            &&& s.esi == r.esi && s.edi == r.edi && s.ebp == r.ebp
            &&& s.eflags == r.eflags % 0x1_0000
            &&& s.es == r.es % 0x1_0000 && s.ds == r.ds % 0x1_0000
            &&& s.fs == r.fs % 0x1_0000 && s.gs == r.gs % 0x1_0000
            &&& s.eip == call_registers(mem, a).eip && s.cs == call_registers(mem, a).cs
        }),
{
    lemma_results(mem, a, r);
    lemma_read_back(call_results(mem, a, r), a, r);
}

/// A segment begins where a program sets its base, with the high word in CX, and pointers into it
/// are counted from there. Vectors of interrupts that are set in protected mode are read back.
#[verifier::rlimit(50)]
pub proof fn segments_begin_at_their_base(m: State, r: VMRegisters, offset: u32)
    requires
        r.eax % 0x1_0000 == 0x0007,
        m.ldt.len() == 64,
        m.dpmi_active,
        crate::dos::descriptors::shadowed((r.ebx % 0x1_0000) as u32),
    ensures
        ({
            let o = int31(m, r);
            let sel = (r.ebx % 0x1_0000) as u32;
            let base = (r.ecx as int % 0x1_0000) * 0x1_0000 + r.edx as int % 0x1_0000;
            &&& descriptor(o.m.ldt, sel).base == base
            &&& descriptor(o.m.ldt, sel).limit == descriptor(m.ldt, sel).limit
            &&& o.m.address(sel, offset) == base + offset
            &&& !carry(o.regs)
        }),
{
    lemma_carry_bits(r.eflags);
}

/// The vector of an interrupt that is set in protected mode is the vector that is got there.
#[verifier::rlimit(50)]
pub proof fn vectors_are_kept_in_protected_mode(m: State, set: VMRegisters, get: VMRegisters)
    requires
        set.eax % 0x1_0000 == 0x0201,
        get.eax % 0x1_0000 == 0x0200,
        set.ebx % 0x100 == get.ebx % 0x100,
        0x400 <= m.mem.len(),
    ensures
        ({
            let after = int31(m, set).m;
            let o = int31(after, get);
            &&& o.regs.ecx % 0x1_0000 == set.ecx % 0x1_0000
            &&& o.regs.edx % 0x1_0000 == set.edx % 0x1_0000
            &&& o.m == after && !carry(o.regs)
        }),
{
    lemma_carry_bits(get.eflags);
    crate::bits::lemma_parts_independent(get.ecx, 0, word0(set.ecx));
    crate::bits::lemma_parts_independent(get.edx, 0, word0(set.edx));
}

/// A key that a program takes is in AX: its scan code in AH and its character in AL. Keys are told
/// when they are pressed, not when they are released.
#[verifier::rlimit(50)]
pub proof fn keys_are_told_in_ax(r: VMRegisters, key: (u8, u8), code: u8)
    ensures
        with_key(r, key).eax % 0x100 == key.1,
        (with_key(r, key).eax / 0x100) % 0x100 == key.0,
        with_key(r, key).eax / 0x1_0000 == r.eax / 0x1_0000,
        with_key(r, key).eflags == r.eflags,
        key_waiting(r, key).eax == with_key(r, key).eax,
        (key_waiting(r, key).eflags / 0x40) % 2 == 0,
        packet_key((1u8, code)) == bios_key(code),
        packet_key((2u8, code)) is None,
{
    crate::bits::lemma_parts_independent(r.eax, key.0, 0);
    crate::bits::lemma_parts_independent(with_byte1(r.eax, key.0), key.1, 0);
    lemma_zero_flag(r.eflags);
}

proof fn lemma_zero_flag(x: u32)
    by (bit_vector)
    ensures
        ((x & 0xffff_ffbf) / 0x40) % 2 == 0,
{
}

/// An interrupt that is delivered runs the handler that its vector names. Flags, segment and place of
/// the program lie on the stack, as an interrupt return takes them. The handler that was there from
/// the start is passed over.
#[verifier::rlimit(50)]
pub proof fn interrupts_run_their_handler(m: State, r: VMRegisters, n: int)
    requires
        m.wf(),
        0 <= n < 256,
        r.ss <= 0xffff,
        6 <= r.esp <= 0xffff,
        0x400 <= r.ss * 16,
    ensures
        ({
            let offset = mem16(m.mem, n * 4);
            let segment = mem16(m.mem, n * 4 + 2);
            let (after, regs) = delivered(m, r, n);
            let top = r.ss * 16 + r.esp - 6;
            if segment == 0x50 && offset == 0 {
                after == m && regs == r
            } else {
                &&& regs.cs == segment && regs.eip == offset
                &&& regs.esp == r.esp - 6
                &&& mem16(after.mem, top) == r.eip % 0x1_0000
                &&& mem16(after.mem, top + 2) == r.cs % 0x1_0000
                &&& mem16(after.mem, top + 4) == r.eflags % 0x1_0000
            }
        }),
{
    reveal(delivered);
    let offset = mem16(m.mem, n * 4);
    let segment = mem16(m.mem, n * 4 + 2);
    if !(segment == 0x50 && offset == 0) {
        let at = r.ss * 16 + r.esp;
        let (m1, r1) = pushed(m, r, word0(r.eflags));
        let (m2, r2) = pushed(m1, r1, word0(r.cs));
        assert(r1.esp == r.esp - 2);
        assert(r2.esp == r.esp - 4);
        assert(m1.mem == put16(m.mem, at - 2, word0(r.eflags)));
        assert(m2.mem == put16(m1.mem, at - 4, word0(r.cs)));
        let m3 = put16(m2.mem, at - 6, word0(r.eip));
        assert(delivered(m, r, n).0.mem == m3);
        crate::dos::machine::memory_words_are_independent(m.mem, at - 2, word0(r.eflags), at - 2);
        crate::dos::machine::memory_words_are_independent(m1.mem, at - 4, word0(r.cs), at - 2);
        crate::dos::machine::memory_words_are_independent(m1.mem, at - 4, word0(r.cs), at - 4);
        crate::dos::machine::memory_words_are_independent(m2.mem, at - 6, word0(r.eip), at - 2);
        crate::dos::machine::memory_words_are_independent(m2.mem, at - 6, word0(r.eip), at - 4);
        crate::dos::machine::memory_words_are_independent(m2.mem, at - 6, word0(r.eip), at - 6);
    }
}

/// Of a thousand ticks of the clock, 182 are ticks of the timer of a program: each tick counts 182,
/// and each thousand is one.
pub proof fn the_timer_of_programs_is_slower(accum: u32)
    requires
        accum < 1000,
    ensures
        ({
            let (next, due) = timer_tick(accum);
            &&& next < 1000
            &&& next + (if due { 1000int } else { 0 }) == accum + 182
        }),
{
}

proof fn lemma_last_backslash(path: Seq<u8>, n: int, at: int)
    requires
        0 <= at < n <= path.len(),
        path[at] == 0x5C,
        forall|i: int| at < i < n ==> #[trigger] path[i] != 0x5C,
    ensures
        last_backslash(path, n) == at,
    decreases n,
{
    if n - 1 > at {
        lemma_last_backslash(path, n - 1, at);
    }
}

/// The directory of a program is its path without the name.
pub proof fn programs_start_in_their_directory(dir: Seq<u8>, name: Seq<u8>)
    requires
        !name.contains(0x5C),
    ensures
        directory_of(dir.push(0x5C) + name) == dir.push(0x5C),
{
    let path = dir.push(0x5C) + name;
    assert forall|i: int| dir.len() < i < path.len() implies #[trigger] path[i] != 0x5C by {
        assert(path[i] == name[i - dir.len() - 1]);
        assert(name.contains(name[i - dir.len() - 1]));
    }
    lemma_last_backslash(path, path.len() as int, dir.len() as int);
    assert(path.subrange(0, dir.len() + 1int) =~= dir.push(0x5C));
}

/// A path with a drive stands alone. Any other lies behind the directory of the program. Both are in
/// upper case.
pub proof fn paths_lie_in_the_current_directory(cwd: Seq<u8>, path: Seq<u8>, i: int)
    requires
        cwd.len() + path.len() <= 256,
        0 <= i < path.len(),
    ensures
        ({
            let full = full_path(cwd, path);
            let c = path[i];
            let up = if 0x61 <= c <= 0x7A { (c - 0x20) as u8 } else { c };
            if path.contains(0x3A) {
                full.len() == path.len() && full[i] == up
            } else {
                full.len() == cwd.len() + path.len() && full.subrange(0, cwd.len() as int) == cwd && full[
                cwd.len() + i] == up
            }
        }),
{
    assert(full_path(cwd, path).subrange(0, cwd.len() as int) =~= cwd || path.contains(0x3A));
}

/// A date is told with the year in CX, the month in DH, the day in DL and the day of the week in AL.
#[verifier::rlimit(50)]
pub proof fn dates_are_told(r: VMRegisters, year: u16, month: u8, day: u8)
    requires
        1 <= year,
        1 <= month <= 12,
        1 <= day,
    ensures
        ({
            let o = date_told(r, year, month, day);
            &&& o.ecx % 0x1_0000 == year
            &&& (o.edx / 0x100) % 0x100 == month
            &&& o.edx % 0x100 == day
            &&& o.eax % 0x100 == day_of_week(year as int, month as int, day as int)
        }),
{
    weekdays_follow_each_other(year as int, month as int, day as int);
    let week = day_of_week(year as int, month as int, day as int) as u8;
    crate::bits::lemma_parts_independent(r.ecx, 0, year);
    lemma_halves(r.edx, month, day);
    crate::bits::lemma_parts_independent(with_byte1(r.eax, 0), week, 0);
}

#[verifier::rlimit(50)]
proof fn lemma_halves(x: u32, hi: u8, lo: u8)
    ensures
        (crate::bits::with_word0(x, (hi * 256 + lo) as u16) / 0x100) % 0x100 == hi,
        crate::bits::with_word0(x, (hi * 256 + lo) as u16) % 0x100 == lo,
{
    let w = (hi * 256 + lo) as u16;
    crate::bits::lemma_parts_independent(x, 0, w);
    let y = crate::bits::with_word0(x, w);
    assert(y % 0x1_0000 == w);
    lemma_word_halves(y);
}

proof fn lemma_word_halves(y: u32)
    by (bit_vector)
    ensures
        (y / 0x100) % 0x100 == (y % 0x1_0000) / 0x100,
        y % 0x100 == (y % 0x1_0000) % 0x100,
{
}

/// A time is told with the hours in CH, the minutes in CL, the seconds in DH and hundredths in DL.
#[verifier::rlimit(50)]
pub proof fn times_are_told(r: VMRegisters, hours: u8, minutes: u8, seconds: u8, mono_ms: u64)
    ensures
        ({
            let o = time_told(r, hours, minutes, seconds, mono_ms);
            &&& (o.ecx / 0x100) % 0x100 == hours && o.ecx % 0x100 == minutes
            &&& (o.edx / 0x100) % 0x100 == seconds && o.edx % 0x100 == (mono_ms as int / 10) % 100
        }),
{
    lemma_halves(r.ecx, hours, minutes);
    lemma_halves(r.edx, seconds, ((mono_ms as int / 10) % 100) as u8);
}

proof fn lemma_leaps(year: int)
    requires
        1 <= year,
    ensures
        year / 4 - year / 100 + year / 400 == (year - 1) / 4 - (year - 1) / 100 + (year - 1) / 400 + (
        if leap_year(year) {
            1int
        } else {
            0
        }),
{
    lemma_steps(year, 4);
    lemma_steps(year, 100);
    lemma_steps(year, 400);
    assert(year % 400 == 0 ==> year % 100 == 0);
    assert(year % 100 == 0 ==> year % 4 == 0);
}

/// How far the days of the week of a month are from its first day in the year.
spec fn month_shift(month: int) -> int {
    if month > 2 {
        13 * (month + 1) / 5 - month_start(month) + 1
    } else {
        13 * (month + 13) / 5 - month_start(month)
    }
}

proof fn lemma_month_shift(month: int)
    requires
        1 <= month <= 12,
    ensures
        (month_shift(month) + 722812) % 7 == 0,
{
}

proof fn lemma_weekday_shift(year: int, month: int, day: int, leaps: int) -> (z: int)
    requires
        1980 <= year,
        1 <= month <= 12,
        1 <= day,
        leaps == (year - 1) / 4 - (year - 1) / 100 + (year - 1) / 400,
    ensures
        day_of_week(year, month, day) == (z - 1) % 7,
        z == day + month_shift(month) + month_start(month) + (year - 1) + leaps + (if month > 2
            && leap_year(year) {
            1int
        } else {
            0
        }),
{
    lemma_leaps(year);
    if month > 2 {
        day + 13 * (month + 1) / 5 + year + year / 4 - year / 100 + year / 400
    } else {
        day + 13 * (month + 13) / 5 + (year - 1) + leaps
    }
}

/// The days of the week follow the days of the calendar, over the ends of months and years. The first
/// day that is counted was a Tuesday.
#[verifier::rlimit(50)]
pub proof fn weekdays_follow_the_calendar(year: int, month: int, day: int)
    requires
        1980 <= year,
        1 <= month <= 12,
        1 <= day,
    ensures
        day_of_week(year, month, day) == (day_number(year, month, day) + 2) % 7,
{
    reveal(days_before_year);
    let leaps = (year - 1) / 4 - (year - 1) / 100 + (year - 1) / 400;
    let z = lemma_weekday_shift(year, month, day, leaps);
    lemma_month_shift(month);
    let d = day_number(year, month, day);
    assert(1980 + (year - 1980) == year);
    assert(days_before_year(1980) == 722814);
    assert(days_before_year(year) == 365 * (year - 1) + leaps);
    let k = (month_shift(month) + 722812) / 7;
    let j = k - 52 * (year - 1);
    assert(z - 1 == 7 * j + (d + 2));
    vstd::arithmetic::div_mod::lemma_mod_multiples_vanish(j, d + 2, 7);
}

/// A file that could not be changed is told by the carry flag and an error.
pub proof fn changes_are_told(r: VMRegisters)
    ensures
        !carry(change_told(r, true)),
        carry(change_told(r, false)),
        change_told(r, true).eax == r.eax,
        change_told(r, false).eax % 0x1_0000 == 2,
{
    lemma_carry_bits(r.eflags);
    crate::bits::lemma_parts_independent(r.eax, 0, 2);
}

/// The directory is told without drive and without backslashes around it, with a zero behind it.
pub proof fn the_directory_is_told(m: State, r: VMRegisters, drive: u8, name: Seq<u8>, i: int)
    requires
        calls_service(r, 0x47),
        m.cwd == seq![drive, 0x3Au8, 0x5Cu8] + name.push(0x5C),
        name.len() <= 63,
        0 <= m.address(r.ds, r.esi),
        m.address(r.ds, r.esi) + name.len() + 1 <= m.mem.len(),
        0 <= i < name.len(),
    ensures
        ({
            let o = int21(m, r);
            let at = m.address(r.ds, r.esi);
            &&& o.m.mem[at + i] == name[i]
            &&& o.m.mem[at + name.len()] == 0
            &&& !carry(o.regs)
        }),
{
    let dir = m.cwd.subrange(3, m.cwd.len() as int);
    assert(m.cwd[1] == 0x3A && m.cwd[2] == 0x5C);
    assert(dir =~= name.push(0x5C));
    assert(dir.drop_last() =~= name);
    assert(bare_directory(m.cwd) =~= name);
    lemma_carry_bits(r.eflags);
}

/// A program is told the drive that it is on, and the version.
#[verifier::rlimit(50)]
pub proof fn drive_and_version_are_told(m: State, r: VMRegisters)
    requires
        m.cwd.len() > 0,
        0x41 <= m.cwd[0] <= 0x5A,
    ensures
        calls_service(r, 0x19) ==> int21(m, r).regs.eax as int % 0x100 == m.cwd[0] - 0x41,
        calls_service(r, 0x30) ==> int21(m, r).regs.eax % 0x1_0000 == 5,
{
    crate::bits::lemma_parts_independent(r.eax, (m.cwd[0] - 0x41) as u8, 1);
    crate::bits::lemma_parts_independent(r.eax, 5, 0);
    crate::bits::lemma_parts_independent(crate::bits::with_byte0(r.eax, 5), 0, 0);
    lemma_version(with_byte1(crate::bits::with_byte0(r.eax, 5), 0));
}

/// A program is told a disk of 2880 sectors of 512 bytes, a hundred of them free, one to a cluster.
#[verifier::rlimit(50)]
pub proof fn the_room_on_the_disk_is_told(m: State, r: VMRegisters)
    requires
        calls_service(r, 0x36),
    ensures
        ({
            let o = int21(m, r).regs;
            &&& o.eax % 0x1_0000 == 1 && o.ecx % 0x1_0000 == 512
            &&& o.edx % 0x1_0000 == 2880 && o.ebx % 0x1_0000 == 100
        }),
{
    crate::bits::lemma_parts_independent(r.eax, 0, 1);
    crate::bits::lemma_parts_independent(r.ebx, 0, 100);
    crate::bits::lemma_parts_independent(r.ecx, 0, 512);
    crate::bits::lemma_parts_independent(r.edx, 0, 2880);
}

/// A block that is given back is free, and the program is told of no error.
pub proof fn programs_give_memory_back(m: State, r: VMRegisters)
    requires
        calls_service(r, 0x49),
    ensures
        int21(m, r).m == (State { arena: arena_free(m.arena, word0(r.es)).0, ..m }),
        !carry(int21(m, r).regs),
{
    lemma_carry_bits(r.eflags);
}

proof fn lemma_version(x: u32)
    by (bit_vector)
    ensures
        x % 0x100 == 5 && (x / 0x100) % 0x100 == 0 ==> x % 0x1_0000 == 5,
{
}

/// A block is resized for the program that has it: it is told whether that was possible, and what is the
/// largest block if not.
#[verifier::rlimit(50)]
pub proof fn programs_are_told_of_resizing(m: State, r: VMRegisters)
    requires
        calls_service(r, 0x4A),
        m.arena.tracks(word0(r.es)),
    ensures
        ({
            let o = int21(m, r);
            let (a, resized) = arena_resize(m.arena, word0(r.es), word0(r.ebx));
            &&& resized ==> o.m == (State { arena: a, ..m }) && !carry(o.regs)
            &&& !resized ==> o.m == m && carry(o.regs) && o.regs.eax % 0x1_0000 == 8
                && o.regs.ebx as int % 0x1_0000 == arena_largest(m.arena)
        }),
{
    lemma_carry_bits(r.eflags);
    crate::bits::lemma_parts_independent(r.eax, 0, 8);
    crate::bits::lemma_parts_independent(r.ebx, 0, arena_largest(m.arena));
}

/// Interrupts that are pending are delivered: the keyboard as interrupt 9, and the timer as 1Ch when a tick
/// of the program is due. A turn that ended otherwise ends the program.
pub proof fn pending_interrupts_are_delivered(m: State, r: VMRegisters, pending: u32, reason: u32)
    requires
        m.timer_accum < 1000,
    ensures
        pending % 4 == 0 ==> all_delivered(m, r, pending) == (m, r),
        pending % 4 == 2 ==> all_delivered(m, r, pending) == delivered(m, r, 0x09),
        pending % 4 == 1 ==> all_delivered(m, r, pending) == (if timer_tick(m.timer_accum).1 {
            delivered(State { timer_accum: timer_tick(m.timer_accum).0, ..m }, r, 0x1C)
        } else {
            (State { timer_accum: timer_tick(m.timer_accum).0, ..m }, r)
        }),
        compat_step(m, r, 0).2 is End == (fault(m, r).2 is Stop),
        fault(m, r).2 matches Fault::Interrupt(n) ==> compat_step(m, r, 0).2 == CompatStep::Serve(n),
        reason != 0 && reason % 256 != 1 ==> compat_step(m, r, reason) == (m, r, CompatStep::End),
        reason % 256 == 1 ==> compat_step(m, r, reason).2 is Resume,
{
    assert(pending % 4 == 0 ==> pending % 2 == 0 && (pending / 2) % 2 == 0);
    assert(pending % 4 == 1 ==> pending % 2 == 1 && (pending / 2) % 2 == 0);
    assert(pending % 4 == 2 ==> pending % 2 == 0 && (pending / 2) % 2 == 1);
}

/// A word of a file, the low byte first.
pub open spec fn word_in(file: Seq<u8>, at: int) -> int {
    file[at] + file[at + 1] * 256
}

/// A program in an MZ file starts at the place and with the stack that its header tells, counted from
/// where its image lies. Its image lies behind the header, and its words to relocate are listed where
/// the header says.
pub proof fn mz_programs_start_as_their_header_tells(file: Seq<u8>)
    requires
        file.len() >= 28,
    ensures
        ({
            let h = MzHeader::of_bytes(file);
            let r = mz_start(h);
            &&& r.cs * 16 + r.eip == 0x8100 + word_in(file, 22) * 16 + word_in(file, 20)
            &&& r.ss * 16 + r.esp == 0x8100 + word_in(file, 14) * 16 + word_in(file, 16)
            &&& r.ds * 16 == 0x8000 && r.es * 16 == 0x8000
            &&& h.header_bytes() == word_in(file, 8) * 16
            &&& h.relocation_count == word_in(file, 6)
            &&& h.relocation_offset == word_in(file, 24)
            &&& word_in(file, 2) == 0 ==> h.file_bytes() == word_in(file, 4) * 512
            &&& word_in(file, 2) != 0 ==> h.file_bytes() == word_in(file, 4) * 512 - 512 + word_in(
                file, 2,
            )
        }),
{
}

/// A program that was loaded has all memory from its prefix to the end of the memory of programs.
pub proof fn programs_have_all_memory(b: Blocks)
    requires
        b.wf(),
        slot_of(b.table, 0) is Some,
    ensures
        ({
            let a = claimed(b);
            let i = slot_of(b.table, 0).unwrap();
            &&& a.start * 16 == 0x8000
            &&& a.table[i].0 * 16 == 0x8000
            &&& (a.table[i].0 + a.table[i].1) * 16 == 0xA_0000
            &&& a.table == b.table.update(i, a.table[i])
        }),
{
    lemma_slot_of(b.table, 0);
}

} // verus!
