//! The DOS services of INT 21h.
use vstd::prelude::*;

use crate::api::compat::VMRegisters;
use crate::bits::{
    byte0, byte1, dword, high16, low16, make_dword, set_low16, with_byte0, with_byte1, with_word0,
    word0, word1,
};
use crate::bytes::spliced;
use crate::dos::arena::{arena_alloc, arena_free, arena_largest, arena_resize};
use crate::dos::dpmi::{done, vector_set};
use crate::dos::files::{
    bare_directory, free_handle, full_path, open_file, reaches_end, scanned, zero_ended,
};
use crate::dos::machine::{
    clear_carry, failed, mem16, set_carry, succeeded, DosFileDescriptor, HostCall, LogLine,
    Machine, Missing, Outcome, Pending, State, PSP_SEGMENT,
};

verus! {

/// The service failed with an error code in AX.
pub open spec fn error(r: VMRegisters, code: u16) -> VMRegisters {
    failed(VMRegisters { eax: with_word0(r.eax, code), ..r })
}

/// The service succeeded with a value in AX.
pub open spec fn value(r: VMRegisters, ax: u16) -> VMRegisters {
    succeeded(VMRegisters { eax: with_word0(r.eax, ax), ..r })
}

/// How many bytes come before the first dollar sign from `a` on, at most `n`.
pub open spec fn dollar_length(mem: Seq<u8>, a: int, n: nat) -> nat
    decreases n,
{
    if n == 0 || mem[a] == 0x24 {
        0
    } else {
        1 + dollar_length(mem, a + 1, (n - 1) as nat)
    }
}

/// The path at a pointer, in full.
pub open spec fn path_at(m: State, seg: u32, offset: u32) -> Seq<u8> {
    full_path(m.cwd, zero_ended(m.mem, m.address(seg, offset), 128))
}

/// The number of bytes that a read or write asks for: ECX in protected mode, else CX.
pub open spec fn transfer_count(m: State, r: VMRegisters) -> u32 {
    if m.dpmi_active { r.ecx } else { word0(r.ecx) as u32 }
}

/// The drive of the current directory, from 0 for A.
pub open spec fn current_drive(cwd: Seq<u8>) -> u8 {
    if cwd.len() > 0 && 0x41 <= cwd[0] <= 0x5A { (cwd[0] - 0x41) as u8 } else { 0 }
}

/// The distance of a seek, from CX:DX.
pub open spec fn seek_distance(r: VMRegisters) -> int {
    let d = dword(word0(r.ecx), word0(r.edx)) as int;
    if d >= 0x8000_0000 { d - 0x1_0000_0000 } else { d }
}

/// The result of a seek to a position.
pub open spec fn sought(m: State, r: VMRegisters, fd: int, pos: int) -> Outcome {
    if pos < 0 {
        done(m, error(r, 0x19), Seq::empty())
    } else {
        let at = (pos % 0x1_0000_0000) as u32;
        done(
            State { files: m.files.update(fd, DosFileDescriptor { cursor: at, ..m.files[fd] }), ..m },
            succeeded(
                VMRegisters {
                    eax: with_word0(r.eax, word0(at)),
                    edx: with_word0(r.edx, word1(at)),
                    ..r
                },
            ),
            Seq::empty(),
        )
    }
}

/// Open or create the file at DS:DX.
pub open spec fn open_service(m: State, r: VMRegisters, create: bool) -> Outcome {
    match free_handle(m.files, 5) {
        None => done(m, error(r, 0x04), Seq::empty()),
        Some(fd) => done(
            State { path: path_at(m, r.ds, r.edx), pending: Pending::Open(fd), ..m }, r,
            seq![HostCall::OpenFile(create)],
        ),
    }
}

/// Read from file BX.
pub open spec fn read_service(m: State, r: VMRegisters) -> Outcome {
    let fd = word0(r.ebx);
    let stdin = fd == 0;
    let before = if stdin { seq![HostCall::SetCanonical(true)] } else { Seq::empty() };
    match open_file(m.files, fd as int) {
        Some(f) => {
            let a = m.address(r.ds, r.edx) as u32;
            let n = transfer_count(m, r);
            done(
                State { pending: Pending::Read(fd, a, n, stdin), ..m }, r,
                before.push(HostCall::ReadMemory(f.handle, a, n, f.cursor)),
            )
        },
        None => done(
            m, error(r, 0x06), if stdin { before.push(HostCall::SetCanonical(false)) } else { before },
        ),
    }
}

/// Write to file BX.
pub open spec fn write_service(m: State, r: VMRegisters) -> Outcome {
    let fd = word0(r.ebx);
    match open_file(m.files, fd as int) {
        Some(f) => done(
            State { pending: Pending::Write(fd), ..m }, r,
            seq![
                HostCall::WriteMemory(
                    f.handle, m.address(r.ds, r.edx) as u32, transfer_count(m, r), f.cursor,
                ),
            ],
        ),
        None => done(m, error(r, 0x06), Seq::empty()),
    }
}

/// Move the position of file BX: from the start, from where it is, or from the end.
pub open spec fn seek_service(m: State, r: VMRegisters) -> Outcome {
    let fd = word0(r.ebx);
    let origin = byte0(r.eax);
    match open_file(m.files, fd as int) {
        None => done(m, error(r, 0x06), Seq::empty()),
        Some(f) => if f.device {
            done(
                m,
                succeeded(
                    VMRegisters { eax: with_word0(r.eax, 0), edx: with_word0(r.edx, 0), ..r },
                ),
                Seq::empty(),
            )
        } else if origin == 0 {
            sought(m, r, fd as int, seek_distance(r))
        } else if origin == 1 {
            sought(m, r, fd as int, f.cursor + seek_distance(r))
        } else if origin == 2 {
            done(
                State { pending: Pending::SeekEnd(fd, seek_distance(r) as i32), ..m }, r,
                seq![HostCall::FileSize(f.handle)],
            )
        } else {
            done(m, error(r, 0x01), Seq::empty())
        },
    }
}

/// Close file BX.
pub open spec fn close_service(m: State, r: VMRegisters) -> Outcome {
    let fd = word0(r.ebx) as int;
    match open_file(m.files, fd) {
        Some(f) => done(
            State {
                files: m.files.update(fd, DosFileDescriptor { open: false, device: false, ..f }),
                ..m
            },
            succeeded(r),
            if f.device { Seq::empty() } else { seq![HostCall::CloseFile(f.handle)] },
        ),
        None => done(m, error(r, 0x06), Seq::empty()),
    }
}

/// What kind of file BX is.
pub open spec fn ioctl_service(m: State, r: VMRegisters) -> Outcome {
    if byte0(r.eax) == 0x00 {
        match open_file(m.files, word0(r.ebx) as int) {
            Some(f) => done(
                m,
                succeeded(
                    VMRegisters {
                        edx: with_word0(r.edx, if f.device { 0x80D3 } else { 0x0000 }),
                        ..r
                    },
                ),
                Seq::empty(),
            ),
            None => done(m, error(r, 0x06), Seq::empty()),
        }
    } else {
        done(m, error(r, 0x01), Seq::empty())
    }
}

/// Allocate BX paragraphs.
pub open spec fn allocate_service(m: State, r: VMRegisters) -> Outcome {
    match arena_alloc(m.arena, word0(r.ebx)) {
        (arena, Some(segment)) => done(State { arena, ..m }, value(r, segment), Seq::empty()),
        _ => done(
            m,
            error(
                VMRegisters { ebx: with_word0(r.ebx, arena_largest(m.arena)), ..r }, 0x08,
            ),
            Seq::empty(),
        ),
    }
}

/// A block is resized. One that the arena does not know is left alone; one that it knows
/// and that cannot be given its size is an error, with the largest size that is free.
pub open spec fn resize_service(m: State, r: VMRegisters) -> Outcome {
    let (arena, resized) = arena_resize(m.arena, word0(r.es), word0(r.ebx));
    if resized || !m.arena.tracks(word0(r.es)) {
        done(State { arena, ..m }, succeeded(r), Seq::empty())
    } else {
        done(
            m,
            error(
                VMRegisters { ebx: with_word0(r.ebx, arena_largest(m.arena)), ..r }, 0x08,
            ),
            Seq::empty(),
        )
    }
}

/// The memory after the current directory was written to DS:SI.
pub open spec fn directory_written(m: State, r: VMRegisters) -> Seq<u8> {
    spliced(m.mem, m.address(r.ds, r.esi), bare_directory(m.cwd).push(0))
}

/// The services of INT 21h, by AH.
pub open spec fn int21(m: State, r: VMRegisters) -> Outcome {
    let ah = byte1(r.eax);
    let al = byte0(r.eax);
    if ah == 0x00 {
        done(m, r, seq![HostCall::Exit(1)])
    } else if ah == 0x01 {
        done(State { pending: Pending::StdinChar, ..m }, r, seq![HostCall::ReadByte(0)])
    } else if ah == 0x02 {
        done(m, r, seq![HostCall::WriteByte(1, byte0(r.edx))])
    } else if ah == 0x03 {
        done(State { pending: Pending::AuxChar, ..m }, r, seq![HostCall::ReadByte(2)])
    } else if ah == 0x04 {
        done(m, r, seq![HostCall::WriteByte(2, byte0(r.edx))])
    } else if ah == 0x09 {
        let a = m.address(r.ds, r.edx);
        done(m, r, seq![HostCall::WriteMemory(1, a as u32, dollar_length(m.mem, a, 256) as u32, 0)])
    } else if ah == 0x0E {
        done(m, VMRegisters { eax: with_byte0(r.eax, 1), ..r }, Seq::empty())
    } else if ah == 0x19 {
        done(m, VMRegisters { eax: with_byte0(r.eax, current_drive(m.cwd)), ..r }, Seq::empty())
    } else if ah == 0x25 {
        done(vector_set(m, al, word0(r.ds), word0(r.edx)), r, Seq::empty())
    } else if ah == 0x2A {
        done(State { pending: Pending::Date, ..m }, r, seq![HostCall::GetTime])
    } else if ah == 0x2C {
        done(State { pending: Pending::Time, ..m }, r, seq![HostCall::GetTime])
    } else if ah == 0x30 {
        // Version 5.0
        done(
            m,
            VMRegisters { eax: with_byte1(with_byte0(r.eax, 5), 0), ebx: 0, ecx: 0, ..r },
            Seq::empty(),
        )
    } else if ah == 0x35 {
        done(
            m,
            VMRegisters {
                ebx: mem16(m.mem, al * 4) as u32,
                es: mem16(m.mem, al * 4 + 2) as u32,
                ..r
            },
            Seq::empty(),
        )
    } else if ah == 0x36 {
        // A floppy disk with some room
        done(
            m,
            VMRegisters {
                eax: with_word0(r.eax, 1),
                ebx: with_word0(r.ebx, 100),
                ecx: with_word0(r.ecx, 512),
                edx: with_word0(r.edx, 2880),
                ..r
            },
            Seq::empty(),
        )
    } else if ah == 0x3C {
        open_service(m, r, true)
    } else if ah == 0x3D {
        open_service(m, r, false)
    } else if ah == 0x3E {
        close_service(m, r)
    } else if ah == 0x3F {
        read_service(m, r)
    } else if ah == 0x40 {
        write_service(m, r)
    } else if ah == 0x41 {
        done(
            State { path: path_at(m, r.ds, r.edx), pending: Pending::Change, ..m }, r,
            seq![HostCall::RemoveFile],
        )
    } else if ah == 0x42 {
        seek_service(m, r)
    } else if ah == 0x44 {
        ioctl_service(m, r)
    } else if ah == 0x47 {
        done(State { mem: directory_written(m, r), ..m }, succeeded(r), Seq::empty())
    } else if ah == 0x48 {
        allocate_service(m, r)
    } else if ah == 0x49 {
        done(
            State { arena: arena_free(m.arena, word0(r.es)).0, ..m }, succeeded(r), Seq::empty(),
        )
    } else if ah == 0x4A {
        resize_service(m, r)
    } else if ah == 0x4C {
        done(m, r, seq![HostCall::Exit(al as u32)])
    } else if ah == 0x56 {
        done(
            State {
                path: path_at(m, r.ds, r.edx),
                new_path: path_at(m, r.es, r.edi),
                pending: Pending::Change,
                ..m
            },
            r,
            seq![HostCall::RenameFile],
        )
    } else if ah == 0x63 {
        done(m, VMRegisters { ds: PSP_SEGMENT, esi: 0x3C, ..r }, Seq::empty())
    } else if ah == 0x66 {
        if al == 0x01 {
            done(
                m,
                succeeded(
                    VMRegisters {
                        ebx: with_word0(r.ebx, 437),
                        edx: with_word0(r.edx, 437),
                        ..r
                    },
                ),
                Seq::empty(),
            )
        } else {
            done(m, succeeded(r), Seq::empty())
        }
    } else if ah == 0x68 {
        done(m, succeeded(r), Seq::empty())
    } else {
        done(m, failed(r), seq![HostCall::Log(LogLine::Missing(Missing::DosApi(ah)))])
    }
}

/// The memory that a service points to is there, as far as the service reads or writes it.
pub open spec fn int21_ready(m: State, r: VMRegisters) -> bool {
    let ah = byte1(r.eax);
    &&& ah == 0x09 ==> reaches_end(m, r.ds, r.edx, 0x24, 256)
    &&& (ah == 0x3C || ah == 0x3D) && free_handle(m.files, 5) is Some ==> reaches_end(
        m, r.ds, r.edx, 0, 128,
    )
    &&& ah == 0x41 || ah == 0x56 ==> reaches_end(m, r.ds, r.edx, 0, 128)
    &&& ah == 0x56 ==> reaches_end(m, r.es, r.edi, 0, 128)
    &&& (ah == 0x3F || ah == 0x40) && open_file(m.files, word0(r.ebx) as int) is Some ==> m.reaches(
        r.ds, r.edx, transfer_count(m, r) as int,
    )
    &&& ah == 0x47 ==> m.reaches(r.ds, r.esi, bare_directory(m.cwd).len() + 1int)
}

fn single(call: HostCall) -> (r: Vec<HostCall>)
    ensures
        r@ == seq![call],
{
    let r: Vec<HostCall> = vec![call];
    assert(r@ =~= seq![call]);
    r
}

fn none() -> (r: Vec<HostCall>)
    ensures
        r@ == Seq::<HostCall>::empty(),
{
    let r: Vec<HostCall> = Vec::new();
    assert(r@ =~= Seq::<HostCall>::empty());
    r
}

fn fail_with(regs: &mut VMRegisters, code: u16) -> (r: Vec<HostCall>)
    ensures
        *final(regs) == error(*old(regs), code),
        r@ == Seq::<HostCall>::empty(),
{
    regs.set_ax(code);
    set_carry(regs);
    none()
}

fn to_signed(x: u32) -> (r: i64)
    ensures
        r == (if x >= 0x8000_0000 { x - 0x1_0000_0000 } else { x as int }),
{
    if x >= 0x8000_0000 { x as i64 - 0x1_0000_0000 } else { x as i64 }
}

impl Machine {
    /// Whether the memory that a service points to is there, as far as the service reads or
    /// writes it.
    pub fn dos_api_ready(&self, regs: &VMRegisters) -> (r: bool)
        requires
            self.wf(),
        ensures
            r == int21_ready(self@, *regs),
    {
        match regs.ah() {
            0x09 => self.can_scan(regs.ds, regs.edx, 0x24, 256),
            0x3C | 0x3D => self.alloc_dos_fd().is_none() || self.can_scan(
                regs.ds, regs.edx, 0, 128,
            ),
            0x41 => self.can_scan(regs.ds, regs.edx, 0, 128),
            0x56 => self.can_scan(regs.ds, regs.edx, 0, 128) && self.can_scan(
                regs.es, regs.edi, 0, 128,
            ),
            0x3F | 0x40 => self.get_dos_fd(low16(regs.ebx)).is_none() || self.can_address(
                regs.ds, regs.edx, self.count(regs),
            ),
            0x47 => {
                let name: Vec<u8> = self.bare_cwd();
                self.can_address(regs.ds, regs.esi, name.len() as u32 + 1)
            },
            _ => true,
        }
    }

    /// Serve INT 21h. Returns the calls to make; where one of them has a result, it
    /// goes to the function for the pending operation.
    #[verifier::rlimit(60)]
    pub fn dos_api(&mut self, regs: &mut VMRegisters) -> (r: Vec<HostCall>)
        requires
            old(self).wf(),
            int21_ready(old(self)@, *old(regs)),
        ensures
            final(self).wf(),
            done(final(self)@, *final(regs), r@) == int21(old(self)@, *old(regs)),
    {
        let al: u8 = regs.al();
        match regs.ah() {
            0x00 => single(HostCall::Exit(1)),
            0x01 => {
                self.pending = Pending::StdinChar;
                single(HostCall::ReadByte(0))
            }
            0x02 => single(HostCall::WriteByte(1, regs.dl())),
            0x03 => {
                self.pending = Pending::AuxChar;
                single(HostCall::ReadByte(2))
            }
            0x04 => single(HostCall::WriteByte(2, regs.dl())),
            0x09 => self.print_string(regs),
            0x0E => {
                regs.set_al(1);
                none()
            }
            0x19 => {
                let drive: u8 = if self.cwd.len() > 0 && self.cwd[0] >= 0x41 && self.cwd[0] <= 0x5A {
                    self.cwd[0] - 0x41
                } else {
                    0
                };
                regs.set_al(drive);
                none()
            }
            0x25 => {
                self.set_vector(al, low16(regs.ds), low16(regs.edx));
                none()
            }
            0x2A => {
                self.pending = Pending::Date;
                single(HostCall::GetTime)
            }
            0x2C => {
                self.pending = Pending::Time;
                single(HostCall::GetTime)
            }
            0x30 => {
                regs.set_al(5);
                regs.set_ah(0);
                regs.ebx = 0;
                regs.ecx = 0;
                none()
            }
            0x35 => {
                let a: u32 = al as u32 * 4;
                regs.ebx = self.read16(a) as u32;
                regs.es = self.read16(a + 2) as u32;
                none()
            }
            0x36 => {
                regs.set_ax(1);
                regs.ebx = set_low16(regs.ebx, 100);
                regs.set_cx(512);
                regs.set_dx(2880);
                none()
            }
            0x3C => self.dos_open_common(regs, true),
            0x3D => self.dos_open_common(regs, false),
            0x3E => self.close_file(regs),
            0x3F => self.read_file(regs),
            0x40 => self.write_file(regs),
            0x41 => {
                let a: u32 = self.resolve_ptr(regs.ds, regs.edx);
                let raw: Vec<u8> = self.read_path(a);
                self.path = self.resolve_dos_path(raw.as_slice());
                self.pending = Pending::Change;
                single(HostCall::RemoveFile)
            }
            0x42 => self.seek_file(regs),
            0x44 => self.ioctl(regs),
            0x47 => self.get_current_directory(regs),
            0x48 => self.allocate_memory(regs),
            0x49 => {
                let _ = self.arena.dos_arena_free(low16(regs.es));
                clear_carry(regs);
                none()
            }
            0x4A => self.resize_memory(regs),
            0x4C => single(HostCall::Exit(al as u32)),
            0x56 => {
                let a: u32 = self.resolve_ptr(regs.ds, regs.edx);
                let raw: Vec<u8> = self.read_path(a);
                let b: u32 = self.resolve_ptr(regs.es, regs.edi);
                let new_raw: Vec<u8> = self.read_path(b);
                let path: Vec<u8> = self.resolve_dos_path(raw.as_slice());
                let new_path: Vec<u8> = self.resolve_dos_path(new_raw.as_slice());
                self.path = path;
                self.new_path = new_path;
                self.pending = Pending::Change;
                single(HostCall::RenameFile)
            }
            0x63 => {
                regs.ds = PSP_SEGMENT;
                regs.esi = 0x3C;
                none()
            }
            0x66 => {
                if al == 0x01 {
                    regs.ebx = set_low16(regs.ebx, 437);
                    regs.edx = set_low16(regs.edx, 437);
                }
                clear_carry(regs);
                none()
            }
            0x68 => {
                clear_carry(regs);
                none()
            }
            ah => {
                set_carry(regs);
                single(HostCall::Log(LogLine::Missing(Missing::DosApi(ah))))
            }
        }
    }

    fn print_string(&self, regs: &VMRegisters) -> (r: Vec<HostCall>)
        requires
            self.wf(),
            reaches_end(self@, regs.ds, regs.edx, 0x24, 256),
        ensures
            ({
                let a = self@.address(regs.ds, regs.edx);
                r@ == seq![
                    HostCall::WriteMemory(1, a as u32, dollar_length(self@.mem, a, 256) as u32, 0),
                ]
            }),
    {
        let a: u32 = self.resolve_ptr(regs.ds, regs.edx);
        let mut len: u32 = 0;
        while len < 256 && self.mem[(a + len) as usize] != 0x24
            invariant
                len <= 256,
                self.wf(),
                a + len + scanned(self@.mem, a + len, 0x24, (256 - len) as nat) <= self.mem@.len(),
                dollar_length(self@.mem, a as int, 256) == len + dollar_length(
                    self@.mem, a + len, (256 - len) as nat,
                ),
            decreases 256 - len,
        {
            len += 1;
        }
        single(HostCall::WriteMemory(1, a, len, 0))
    }

    fn dos_open_common(&mut self, regs: &mut VMRegisters, create: bool) -> (r: Vec<HostCall>)
        requires
            old(self).wf(),
            free_handle(old(self)@.files, 5) is Some ==> reaches_end(
                old(self)@, old(regs).ds, old(regs).edx, 0, 128,
            ),
        ensures
            final(self).wf(),
            done(final(self)@, *final(regs), r@) == open_service(old(self)@, *old(regs), create),
    {
        match self.alloc_dos_fd() {
            Some(fd) => {
                let a: u32 = self.resolve_ptr(regs.ds, regs.edx);
                let raw: Vec<u8> = self.read_path(a);
                self.path = self.resolve_dos_path(raw.as_slice());
                self.pending = Pending::Open(fd);
                single(HostCall::OpenFile(create))
            }
            None => fail_with(regs, 0x04),
        }
    }

    fn close_file(&mut self, regs: &mut VMRegisters) -> (r: Vec<HostCall>)
        requires
            old(self).wf(),
        ensures
            final(self).wf(),
            done(final(self)@, *final(regs), r@) == close_service(old(self)@, *old(regs)),
    {
        let fd: u16 = low16(regs.ebx);
        match self.get_dos_fd(fd) {
            Some(f) => {
                self.files[fd as usize] = DosFileDescriptor { open: false, device: false, ..f };
                clear_carry(regs);
                if f.device { none() } else { single(HostCall::CloseFile(f.handle)) }
            }
            None => fail_with(regs, 0x06),
        }
    }

    fn count(&self, regs: &VMRegisters) -> (r: u32)
        ensures
            r == transfer_count(self@, *regs),
    {
        if self.dpmi_active { regs.ecx } else { low16(regs.ecx) as u32 }
    }

    fn read_file(&mut self, regs: &mut VMRegisters) -> (r: Vec<HostCall>)
        requires
            old(self).wf(),
            open_file(old(self)@.files, word0(old(regs).ebx) as int) is Some ==> old(self)@.reaches(
                old(regs).ds, old(regs).edx, transfer_count(old(self)@, *old(regs)) as int,
            ),
        ensures
            final(self).wf(),
            done(final(self)@, *final(regs), r@) == read_service(old(self)@, *old(regs)),
    {
        let fd: u16 = low16(regs.ebx);
        let stdin: bool = fd == 0;
        let mut calls: Vec<HostCall> = if stdin { single(HostCall::SetCanonical(true)) } else { none() };
        match self.get_dos_fd(fd) {
            Some(f) => {
                let n: u32 = self.count(regs);
                let a: u32 = self.resolve_ptr(regs.ds, regs.edx);
                self.pending = Pending::Read(fd, a, n, stdin);
                calls.push(HostCall::ReadMemory(f.handle, a, n, f.cursor));
            }
            None => {
                let _ = fail_with(regs, 0x06);
                if stdin {
                    calls.push(HostCall::SetCanonical(false));
                }
            }
        }
        calls
    }

    fn write_file(&mut self, regs: &mut VMRegisters) -> (r: Vec<HostCall>)
        requires
            old(self).wf(),
            open_file(old(self)@.files, word0(old(regs).ebx) as int) is Some ==> old(self)@.reaches(
                old(regs).ds, old(regs).edx, transfer_count(old(self)@, *old(regs)) as int,
            ),
        ensures
            final(self).wf(),
            done(final(self)@, *final(regs), r@) == write_service(old(self)@, *old(regs)),
    {
        let fd: u16 = low16(regs.ebx);
        match self.get_dos_fd(fd) {
            Some(f) => {
                let n: u32 = self.count(regs);
                let a: u32 = self.resolve_ptr(regs.ds, regs.edx);
                self.pending = Pending::Write(fd);
                single(HostCall::WriteMemory(f.handle, a, n, f.cursor))
            }
            None => fail_with(regs, 0x06),
        }
    }

    fn seek_to(&mut self, regs: &mut VMRegisters, fd: u16, pos: i64) -> (r: Vec<HostCall>)
        requires
            old(self).wf(),
            fd < 20,
            pos <= 0x2_0000_0000,
        ensures
            final(self).wf(),
            done(final(self)@, *final(regs), r@) == sought(
                old(self)@, *old(regs), fd as int, pos as int,
            ),
    {
        if pos < 0 {
            return fail_with(regs, 0x19);
        }
        let at: u32 = (pos as u64 % 0x1_0000_0000) as u32;
        let f: DosFileDescriptor = self.files[fd as usize];
        self.files[fd as usize] = DosFileDescriptor { cursor: at, ..f };
        regs.set_ax(low16(at));
        regs.edx = set_low16(regs.edx, high16(at));
        clear_carry(regs);
        none()
    }

    fn seek_file(&mut self, regs: &mut VMRegisters) -> (r: Vec<HostCall>)
        requires
            old(self).wf(),
        ensures
            final(self).wf(),
            done(final(self)@, *final(regs), r@) == seek_service(old(self)@, *old(regs)),
    {
        let fd: u16 = low16(regs.ebx);
        let offset: i64 = to_signed(make_dword(low16(regs.ecx), low16(regs.edx)));
        match self.get_dos_fd(fd) {
            Some(f) => {
                if f.device {
                    regs.set_ax(0);
                    regs.edx = set_low16(regs.edx, 0);
                    clear_carry(regs);
                    return none();
                }
                match regs.al() {
                    0 => self.seek_to(regs, fd, offset),
                    1 => self.seek_to(regs, fd, f.cursor as i64 + offset),
                    2 => {
                        self.pending = Pending::SeekEnd(fd, offset as i32);
                        single(HostCall::FileSize(f.handle))
                    }
                    _ => fail_with(regs, 0x01),
                }
            }
            None => fail_with(regs, 0x06),
        }
    }

    fn ioctl(&mut self, regs: &mut VMRegisters) -> (r: Vec<HostCall>)
        requires
            old(self).wf(),
        ensures
            final(self).wf(),
            done(final(self)@, *final(regs), r@) == ioctl_service(old(self)@, *old(regs)),
    {
        if regs.al() == 0x00 {
            match self.get_dos_fd(low16(regs.ebx)) {
                Some(f) => {
                    let info: u16 = if f.device { 0x80D3 } else { 0x0000 };
                    regs.edx = set_low16(regs.edx, info);
                    clear_carry(regs);
                    none()
                }
                None => fail_with(regs, 0x06),
            }
        } else {
            fail_with(regs, 0x01)
        }
    }

    fn get_current_directory(&mut self, regs: &mut VMRegisters) -> (r: Vec<HostCall>)
        requires
            old(self).wf(),
            old(self)@.reaches(
                old(regs).ds, old(regs).esi, bare_directory(old(self)@.cwd).len() + 1int,
            ),
        ensures
            final(self).wf(),
            done(final(self)@, *final(regs), r@) == done(
                State { mem: directory_written(old(self)@, *old(regs)), ..old(self)@ },
                succeeded(*old(regs)), Seq::empty(),
            ),
    {
        let a: u32 = self.resolve_ptr(regs.ds, regs.esi);
        let mut name: Vec<u8> = self.bare_cwd();
        name.push(0);
        self.store(a, name.as_slice());
        clear_carry(regs);
        none()
    }

    /// Put bytes into memory.
    pub fn store(&mut self, a: u32, bytes: &[u8])
        requires
            old(self).wf(),
            a + bytes@.len() <= old(self).mem@.len(),
        ensures
            final(self).wf(),
            final(self)@ == (State { mem: spliced(old(self)@.mem, a as int, bytes@), ..old(self)@ }),
    {
        crate::console::graphics::copy_span(
            self.mem.as_mut_slice(), a as usize, bytes, 0, bytes.len(),
        );
        assert(bytes@.subrange(0, bytes@.len() as int) =~= bytes@);
    }

    fn allocate_memory(&mut self, regs: &mut VMRegisters) -> (r: Vec<HostCall>)
        requires
            old(self).wf(),
        ensures
            final(self).wf(),
            done(final(self)@, *final(regs), r@) == allocate_service(old(self)@, *old(regs)),
    {
        match self.arena.dos_arena_alloc(low16(regs.ebx)) {
            Some(segment) => {
                regs.set_ax(segment);
                clear_carry(regs);
                none()
            }
            None => {
                regs.ebx = set_low16(regs.ebx, self.arena.dos_arena_largest());
                fail_with(regs, 0x08)
            }
        }
    }

    fn resize_memory(&mut self, regs: &mut VMRegisters) -> (r: Vec<HostCall>)
        requires
            old(self).wf(),
        ensures
            final(self).wf(),
            done(final(self)@, *final(regs), r@) == resize_service(old(self)@, *old(regs)),
    {
        let segment: u16 = low16(regs.es);
        let known: bool = self.arena.dos_arena_tracks(segment);
        let resized: bool = self.arena.dos_arena_resize(segment, low16(regs.ebx));
        if resized || !known {
            clear_carry(regs);
            none()
        } else {
            regs.ebx = set_low16(regs.ebx, self.arena.dos_arena_largest());
            fail_with(regs, 0x08)
        }
    }
}

} // verus!
