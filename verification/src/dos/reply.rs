//! What the results of calls make of pending DOS services.
use vstd::prelude::*;

use crate::api::compat::VMRegisters;
use crate::bits::{low16, set_low16, with_byte0, with_byte1, with_word0, word0};
use crate::bytes::spliced;
use crate::dos::api::{error, sought, value};
use crate::dos::dpmi::done;

use crate::dos::machine::{
    clear_carry, failed, set_carry, succeeded, DosFileDescriptor, HostCall, Machine, Outcome, Pending,
    State,
};
use crate::text::push_bytes;

verus! {

/// A character was read from the serial line: AL is the character, or 0 where none came.
pub open spec fn aux_reply(m: State, r: VMRegisters, byte: Option<u8>) -> (State, VMRegisters) {
    (
        State { pending: Pending::Nothing, ..m },
        VMRegisters { eax: with_byte0(r.eax, (match byte { Some(b) => b, None => 0 })), ..r },
    )
}

/// A character came from standard input, or none did. It is echoed.
pub open spec fn stdin_reply(m: State, r: VMRegisters, byte: Option<u8>) -> Outcome {
    let idle = State { pending: Pending::Nothing, ..m };
    match byte {
        Some(b) => done(
            idle, VMRegisters { eax: with_byte0(r.eax, b), ..r }, seq![HostCall::WriteByte(1, b)],
        ),
        None => done(idle, VMRegisters { eax: with_byte0(r.eax, 0), ..r }, Seq::empty()),
    }
}

/// A file was opened under a system handle, or was not.
pub open spec fn open_reply(m: State, r: VMRegisters, fd: u16, handle: Option<u32>) -> (State, VMRegisters) {
    let idle = State { pending: Pending::Nothing, ..m };
    match handle {
        Some(h) => (
            State {
                files: m.files.update(
                    fd as int,
                    DosFileDescriptor { handle: h, cursor: 0, open: true, device: false },
                ),
                ..idle
            },
            value(r, fd),
        ),
        None => (idle, error(r, 0x02)),
    }
}

/// The file table after `n` bytes went through a file. Devices have no position.
pub open spec fn advanced(files: Seq<DosFileDescriptor>, fd: int, n: int) -> Seq<DosFileDescriptor> {
    let f = files[fd];
    if f.device {
        files
    } else {
        files.update(fd, DosFileDescriptor { cursor: (f.cursor + n) as u32, ..f })
    }
}

/// Bytes were read into memory at `a`, or the read failed, which counts as none.
pub open spec fn read_reply(
    m: State, r: VMRegisters, fd: u16, a: int, stdin: bool, data: Option<Seq<u8>>,
) -> Outcome {
    let idle = State { pending: Pending::Nothing, ..m };
    let calls = if stdin { seq![HostCall::SetCanonical(false)] } else { Seq::empty() };
    match data {
        Some(d) => done(
            State {
                mem: spliced(m.mem, a, d),
                files: advanced(m.files, fd as int, d.len() as int),
                ..idle
            },
            value(r, word0(d.len() as u32)),
            calls,
        ),
        None => done(idle, value(r, 0), calls),
    }
}

/// Bytes were written, or the write failed.
pub open spec fn write_reply(m: State, r: VMRegisters, fd: u16, n: Option<u32>) -> (State, VMRegisters) {
    let idle = State { pending: Pending::Nothing, ..m };
    match n {
        Some(k) => (
            State { files: advanced(m.files, fd as int, k as int), ..idle }, value(r, word0(k)),
        ),
        None => (idle, error(r, 0x05)),
    }
}

/// The day of the week, from 0 for Sunday, by Zeller's rule.
pub open spec fn day_of_week(year: int, month: int, day: int) -> int {
    let y = if month <= 2 { year - 1 } else { year };
    let m = if month <= 2 { month + 12 } else { month };
    let zeller = (day + 13 * (m + 1) / 5 + y + y / 4 - y / 100 + y / 400) % 7;
    if zeller == 0 { 6 } else { zeller - 1 }
}

/// Each day of a month is followed by the next day of the week.
pub proof fn weekdays_follow_each_other(year: int, month: int, day: int)
    requires
        1 <= year,
        1 <= month <= 12,
        1 <= day,
    ensures
        day_of_week(year, month, day + 1) == (day_of_week(year, month, day) + 1) % 7,
        0 <= day_of_week(year, month, day) < 7,
{
}

/// The registers that tell a date.
pub open spec fn date_told(r: VMRegisters, year: u16, month: u8, day: u8) -> VMRegisters {
    VMRegisters {
        eax: with_byte0(
            with_byte1(r.eax, 0), day_of_week(year as int, month as int, day as int) as u8,
        ),
        ecx: with_word0(r.ecx, year),
        edx: with_word0(r.edx, (month * 256 + day) as u16),
        ..r
    }
}

/// The registers that tell a time.
pub open spec fn time_told(r: VMRegisters, hours: u8, minutes: u8, seconds: u8, mono_ms: u64) -> VMRegisters {
    VMRegisters {
        ecx: with_word0(r.ecx, (hours * 256 + minutes) as u16),
        edx: with_word0(r.edx, (seconds * 256 + (mono_ms / 10) % 100) as u16),
        ..r
    }
}

/// The registers that tell whether a file was changed.
pub open spec fn change_told(r: VMRegisters, ok: bool) -> VMRegisters {
    if ok { succeeded(r) } else { error(r, 0x02) }
}

impl Machine {
    /// Finish AH=01h.
    pub fn stdin_char_read(&mut self, regs: &mut VMRegisters, byte: Option<u8>) -> (r: Vec<HostCall>)
        requires
            old(self).wf(),
            old(self).pending is StdinChar,
        ensures
            final(self).wf(),
            done(final(self)@, *final(regs), r@) == stdin_reply(old(self)@, *old(regs), byte),
    {
        self.pending = Pending::Nothing;
        match byte {
            Some(b) => {
                regs.set_al(b);
                let calls: Vec<HostCall> = vec![HostCall::WriteByte(1, b)];
                assert(calls@ =~= seq![HostCall::WriteByte(1, b)]);
                calls
            }
            None => {
                regs.set_al(0);
                let calls: Vec<HostCall> = Vec::new();
                assert(calls@ =~= Seq::<HostCall>::empty());
                calls
            }
        }
    }

    /// Finish AH=03h.
    pub fn aux_char_read(&mut self, regs: &mut VMRegisters, byte: Option<u8>)
        requires
            old(self).wf(),
            old(self).pending is AuxChar,
        ensures
            final(self).wf(),
            (final(self)@, *final(regs)) == aux_reply(old(self)@, *old(regs), byte),
    {
        self.pending = Pending::Nothing;
        match byte {
            Some(b) => regs.set_al(b),
            None => regs.set_al(0),
        }
    }

    /// Finish AH=3Ch or AH=3Dh.
    pub fn file_opened(&mut self, regs: &mut VMRegisters, handle: Option<u32>)
        requires
            old(self).wf(),
            old(self).pending matches Pending::Open(fd) && fd < 20,
        ensures
            final(self).wf(),
            old(self).pending matches Pending::Open(fd) && (final(self)@, *final(regs)) == open_reply(
                old(self)@, *old(regs), fd, handle,
            ),
    {
        if let Pending::Open(fd) = self.pending {
            self.pending = Pending::Nothing;
            match handle {
                Some(h) => {
                    self.files[fd as usize] =
                        DosFileDescriptor { handle: h, cursor: 0, open: true, device: false };
                    regs.set_ax(fd);
                    clear_carry(regs);
                }
                None => {
                    regs.set_ax(0x02);
                    set_carry(regs);
                }
            }
        }
    }

    fn advance(&mut self, fd: u16, n: u32)
        requires
            old(self).wf(),
            fd < 20,
            old(self).files@[fd as int].device || old(self).files@[fd as int].cursor + n <= u32::MAX,
        ensures
            final(self).wf(),
            final(self)@ == (State {
                files: advanced(old(self)@.files, fd as int, n as int),
                ..old(self)@
            }),
    {
        let f: DosFileDescriptor = self.files[fd as usize];
        if !f.device {
            self.files[fd as usize] = DosFileDescriptor { cursor: f.cursor + n, ..f };
        }
    }

    /// Finish AH=3Fh. A failed read counts as the end of the file.
    pub fn file_read(&mut self, regs: &mut VMRegisters, data: Option<&[u8]>) -> (r: Vec<HostCall>)
        requires
            old(self).wf(),
            old(self).pending matches Pending::Read(fd, a, n, _) && fd < 20 && a + n <= old(
                self,
            ).mem@.len() && (data matches Some(d) ==> d@.len() <= n && (old(
                self,
            ).files@[fd as int].device || old(self).files@[fd as int].cursor + d@.len() <= u32::MAX)),
        ensures
            final(self).wf(),
            old(self).pending matches Pending::Read(fd, a, _, stdin) && done(
                final(self)@, *final(regs), r@,
            ) == read_reply(
                old(self)@, *old(regs), fd, a as int, stdin,
                match data { Some(d) => Some(d@), None => None },
            ),
    {
        let mut calls: Vec<HostCall> = Vec::new();
        assert(calls@ =~= Seq::<HostCall>::empty());
        if let Pending::Read(fd, a, _n, stdin) = self.pending {
            self.pending = Pending::Nothing;
            match data {
                Some(d) => {
                    let count: u32 = d.len() as u32;
                    self.store(a, d);
                    self.advance(fd, count);
                    regs.set_ax(low16(count));
                }
                None => {
                    regs.set_ax(0);
                }
            }
            clear_carry(regs);
            if stdin {
                calls.push(HostCall::SetCanonical(false));
                assert(calls@ =~= seq![HostCall::SetCanonical(false)]);
            }
        }
        calls
    }

    /// Finish AH=40h.
    pub fn file_written(&mut self, regs: &mut VMRegisters, written: Option<u32>)
        requires
            old(self).wf(),
            old(self).pending matches Pending::Write(fd) && fd < 20 && (written matches Some(n) ==> old(
                self,
            ).files@[fd as int].device || old(self).files@[fd as int].cursor + n <= u32::MAX),
        ensures
            final(self).wf(),
            old(self).pending matches Pending::Write(fd) && (final(self)@, *final(regs))
                == write_reply(old(self)@, *old(regs), fd, written),
    {
        if let Pending::Write(fd) = self.pending {
            self.pending = Pending::Nothing;
            match written {
                Some(n) => {
                    self.advance(fd, n);
                    regs.set_ax(low16(n));
                    clear_carry(regs);
                }
                None => {
                    regs.set_ax(0x05);
                    set_carry(regs);
                }
            }
        }
    }

    /// Finish AH=42h from the end of a file, whose size is 0 where it is not known.
    pub fn file_sized(&mut self, regs: &mut VMRegisters, size: Option<u32>)
        requires
            old(self).wf(),
            old(self).pending matches Pending::SeekEnd(fd, _) && fd < 20,
        ensures
            final(self).wf(),
            old(self).pending matches Pending::SeekEnd(fd, distance) && done(
                final(self)@, *final(regs), Seq::empty(),
            ) == sought(
                State { pending: Pending::Nothing, ..old(self)@ }, *old(regs), fd as int,
                (match size { Some(n) => n as int, None => 0 }) + distance,
            ),
    {
        if let Pending::SeekEnd(fd, distance) = self.pending {
            self.pending = Pending::Nothing;
            let end: u32 = match size {
                Some(n) => n,
                None => 0,
            };
            let pos: i64 = end as i64 + distance as i64;
            if pos < 0 {
                regs.set_ax(0x19);
                set_carry(regs);
            } else {
                let at: u32 = (pos as u64 % 0x1_0000_0000) as u32;
                let f: DosFileDescriptor = self.files[fd as usize];
                self.files[fd as usize] = DosFileDescriptor { cursor: at, ..f };
                regs.set_ax(low16(at));
                regs.edx = set_low16(regs.edx, crate::bits::high16(at));
                clear_carry(regs);
            }
        }
    }

    /// Finish AH=41h or AH=56h.
    pub fn file_changed(&mut self, regs: &mut VMRegisters, ok: bool)
        requires
            old(self).wf(),
            old(self).pending is Change,
        ensures
            final(self).wf(),
            final(self)@ == (State { pending: Pending::Nothing, ..old(self)@ }),
            *final(regs) == change_told(*old(regs), ok),
            *final(regs) == (if ok { succeeded(*old(regs)) } else { error(*old(regs), 0x02) }),
    {
        self.pending = Pending::Nothing;
        if ok {
            clear_carry(regs);
        } else {
            regs.set_ax(0x02);
            set_carry(regs);
        }
    }

    /// The arguments of a rename: both paths one after the other, and their lengths
    /// in the low and the high word.
    pub fn rename_arguments(&self) -> (r: (Vec<u8>, u32))
        requires
            self.path@.len() <= 256,
            self.new_path@.len() <= 256,
        ensures
            r.0@ == self@.path + self@.new_path,
            r.1 == self@.path.len() + self@.new_path.len() * 0x1_0000,
    {
        let mut combined: Vec<u8> = Vec::new();
        push_bytes(&mut combined, self.path.as_slice());
        push_bytes(&mut combined, self.new_path.as_slice());
        assert(combined@ =~= self@.path + self@.new_path);
        (combined, self.path.len() as u32 + self.new_path.len() as u32 * 0x1_0000)
    }

    /// Finish AH=2Ah: year in CX, month and day in DX, day of the week in AL.
    pub fn get_date(&mut self, regs: &mut VMRegisters, year: u16, month: u8, day: u8)
        requires
            old(self).wf(),
            1 <= year,
        ensures
            final(self).wf(),
            final(self)@ == (State { pending: Pending::Nothing, ..old(self)@ }),
            *final(regs) == date_told(*old(regs), year, month, day),
            *final(regs) == (VMRegisters {
                eax: with_byte0(
                    with_byte1(old(regs).eax, 0),
                    day_of_week(year as int, month as int, day as int) as u8,
                ),
                ecx: with_word0(old(regs).ecx, year),
                edx: with_word0(old(regs).edx, (month * 256 + day) as u16),
                ..*old(regs)
            }),
    {
        self.pending = Pending::Nothing;
        regs.set_cx(year);
        regs.set_ah(0);
        regs.edx = set_low16(regs.edx, month as u16 * 256 + day as u16);
        let y: u32 = year as u32;
        let m: u32 = month as u32;
        let d: u32 = day as u32;
        let (y2, m2): (u32, u32) = if m <= 2 { (y - 1, m + 12) } else { (y, m) };
        let dow: u32 = (d + 13 * (m2 + 1) / 5 + y2 + y2 / 4 - y2 / 100 + y2 / 400) % 7;
        let dos_dow: u32 = if dow == 0 { 6 } else { dow - 1 };
        regs.set_al(dos_dow as u8);
    }

    /// Finish AH=2Ch: hours and minutes in CX, seconds and hundredths in DX. The
    /// hundredths come from a clock that counts milliseconds.
    pub fn get_time(&mut self, regs: &mut VMRegisters, hours: u8, minutes: u8, seconds: u8, mono_ms: u64)
        requires
            old(self).wf(),
        ensures
            final(self).wf(),
            final(self)@ == (State { pending: Pending::Nothing, ..old(self)@ }),
            *final(regs) == time_told(*old(regs), hours, minutes, seconds, mono_ms),
            *final(regs) == (VMRegisters {
                ecx: with_word0(old(regs).ecx, (hours * 256 + minutes) as u16),
                edx: with_word0(old(regs).edx, (seconds * 256 + (mono_ms / 10) % 100) as u16),
                ..*old(regs)
            }),
    {
        self.pending = Pending::Nothing;
        let hundredths: u16 = ((mono_ms / 10) % 100) as u16;
        regs.ecx = set_low16(regs.ecx, hours as u16 * 256 + minutes as u16);
        regs.edx = set_low16(regs.edx, seconds as u16 * 256 + hundredths);
    }
}

} // verus!
