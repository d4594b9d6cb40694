//! The DOS file table, the current directory and paths.
use vstd::prelude::*;

use crate::bytes::truncated;
use crate::dos::machine::{DosFileDescriptor, Machine, State};
use crate::text::{push_bytes, sub_bytes, to_upper, upper_all};

verus! {

/// The file behind a DOS handle, if it is open.
pub open spec fn open_file(files: Seq<DosFileDescriptor>, handle: int) -> Option<DosFileDescriptor> {
    if 0 <= handle < files.len() && files[handle].open { Some(files[handle]) } else { None }
}

/// The first free DOS handle from `i` on; handles below 5 are never given out.
pub open spec fn free_handle(files: Seq<DosFileDescriptor>, i: int) -> Option<u16>
    decreases files.len() - i,
{
    if i >= files.len() {
        None
    } else if !files[i].open {
        Some(i as u16)
    } else {
        free_handle(files, i + 1)
    }
}

/// The device behind a standard handle.
pub open spec fn device_file(handle: u32) -> DosFileDescriptor {
    DosFileDescriptor { handle, cursor: 0, open: true, device: true }
}

/// The file table of a new program: input, output, errors and the serial port.
pub open spec fn standard_files(files: Seq<DosFileDescriptor>, aux: u32) -> Seq<DosFileDescriptor> {
    files.update(0, device_file(0)).update(1, device_file(1)).update(2, device_file(1)).update(
        3, device_file(aux),
    )
}

/// The last backslash; the first byte where there is none.
pub open spec fn last_backslash(path: Seq<u8>, n: int) -> int
    decreases n,
{
    if n <= 0 {
        0
    } else if path[n - 1] == 0x5C {
        n - 1
    } else {
        last_backslash(path, n - 1)
    }
}

/// The path up to and with its last backslash.
pub open spec fn directory_of(path: Seq<u8>) -> Seq<u8> {
    path.subrange(0, last_backslash(path, path.len() as int) + 1)
}

/// A path in full: with a drive it stands as it is, else behind the current
/// directory. It is in upper case, and cut to 256 bytes.
pub open spec fn full_path(cwd: Seq<u8>, path: Seq<u8>) -> Seq<u8> {
    if path.contains(0x3A) {
        upper_all(truncated(path, 256))
    } else {
        cwd + upper_all(truncated(path, 256 - cwd.len()))
    }
}

/// A full path is never longer than 256 bytes.
pub proof fn full_path_fits(cwd: Seq<u8>, path: Seq<u8>)
    requires
        cwd.len() <= 256,
    ensures
        full_path(cwd, path).len() <= 256,
{
}

/// The bytes of memory from `a` on before the first zero, at most `n`.
pub open spec fn zero_ended(mem: Seq<u8>, a: int, n: nat) -> Seq<u8>
    decreases n,
{
    if n == 0 || mem[a] == 0 {
        Seq::empty()
    } else {
        seq![mem[a]] + zero_ended(mem, a + 1, (n - 1) as nat)
    }
}

/// How many bytes are looked at from `a` on to find a byte among the next `n`: up to and with
/// the first, or all of them. Looking ends behind the memory.
pub open spec fn scanned(mem: Seq<u8>, a: int, byte: u8, n: nat) -> nat
    decreases n,
{
    if n == 0 {
        0
    } else if a < 0 || a >= mem.len() || mem[a] == byte {
        1
    } else {
        1 + scanned(mem, a + 1, byte, (n - 1) as nat)
    }
}

/// The bytes at a pointer up to `byte`, at most `n`, can be addressed.
pub open spec fn reaches_end(m: State, seg: u32, offset: u32, byte: u8, n: nat) -> bool {
    m.reaches(seg, offset, scanned(m.mem, m.address(seg, offset), byte, n) as int)
}

/// The current directory without drive and outer backslashes, at most 63 bytes.
pub open spec fn bare_directory(cwd: Seq<u8>) -> Seq<u8> {
    let skip = if cwd.len() >= 3 && cwd[1] == 0x3A && cwd[2] == 0x5C { 3int } else { 0 };
    let dir = cwd.subrange(skip, cwd.len() as int);
    let cut = if dir.len() > 0 && dir.last() == 0x5C { dir.drop_last() } else { dir };
    truncated(cut, 63)
}

impl Machine {
    /// Connect the standard handles of a new program.
    pub fn init_file_table(&mut self, stdaux_handle: u32)
        requires
            old(self).wf(),
        ensures
            final(self).wf(),
            final(self)@ == (State {
                files: standard_files(old(self)@.files, stdaux_handle),
                ..old(self)@
            }),
    {
        self.files[0] = DosFileDescriptor { handle: 0, cursor: 0, open: true, device: true };
        self.files[1] = DosFileDescriptor { handle: 1, cursor: 0, open: true, device: true };
        self.files[2] = DosFileDescriptor { handle: 1, cursor: 0, open: true, device: true };
        self.files[3] = DosFileDescriptor { handle: stdaux_handle, cursor: 0, open: true, device: true };
    }

    /// The lowest free DOS handle.
    pub fn alloc_dos_fd(&self) -> (r: Option<u16>)
        requires
            self.wf(),
        ensures
            r == free_handle(self@.files, 5),
            r matches Some(fd) ==> 5 <= fd < 20 && !self@.files[fd as int].open,
    {
        let mut i: usize = 5;
        while i < 20
            invariant
                5 <= i <= 20,
                self.wf(),
                free_handle(self@.files, 5) == free_handle(self@.files, i as int),
            decreases 20 - i,
        {
            if !self.files[i].open {
                return Some(i as u16);
            }
            i += 1;
        }
        None
    }

    /// The open file behind a DOS handle.
    pub fn get_dos_fd(&self, dos_handle: u16) -> (r: Option<DosFileDescriptor>)
        requires
            self.wf(),
        ensures
            r == open_file(self@.files, dos_handle as int),
    {
        let idx: usize = dos_handle as usize;
        if idx < 20 && self.files[idx].open { Some(self.files[idx]) } else { None }
    }

    /// Start in the directory of a program. A directory of more than 256 bytes, or
    /// an empty path, is out of the question.
    pub fn init_cwd(&mut self, exec_path: &[u8])
        requires
            old(self).wf(),
            1 <= exec_path@.len(),
            directory_of(exec_path@).len() <= 256,
        ensures
            final(self).wf(),
            final(self)@ == (State { cwd: directory_of(exec_path@), ..old(self)@ }),
    {
        let mut i: usize = exec_path.len();
        while i > 0 && exec_path[i - 1] != 0x5C
            invariant
                i <= exec_path@.len(),
                last_backslash(exec_path@, exec_path@.len() as int) == last_backslash(
                    exec_path@, i as int,
                ),
            decreases i,
        {
            i -= 1;
        }
        let dir_len: usize = if i > 0 { i } else { 1 };
        self.cwd = sub_bytes(exec_path, 0, dir_len);
    }

    /// A path in full.
    pub fn resolve_dos_path(&self, dos_path: &[u8]) -> (r: Vec<u8>)
        requires
            self.wf(),
        ensures
            r@ == full_path(self@.cwd, dos_path@),
    {
        let mut has_drive: bool = false;
        let mut i: usize = 0;
        while i < dos_path.len()
            invariant
                i <= dos_path@.len(),
                has_drive == (exists|k: int| 0 <= k < i && dos_path@[k] == 0x3A),
            decreases dos_path@.len() - i,
        {
            if dos_path[i] == 0x3A {
                has_drive = true;
            }
            i += 1;
        }
        assert(has_drive == dos_path@.contains(0x3A));
        let room: usize = if has_drive { 256 } else { 256 - self.cwd.len() };
        let len: usize = if dos_path.len() <= room { dos_path.len() } else { room };
        let mut out: Vec<u8> = Vec::new();
        if !has_drive {
            push_bytes(&mut out, self.cwd.as_slice());
        }
        let ghost start = out@;
        let ghost cut = truncated(dos_path@, room as int);
        let mut k: usize = 0;
        while k < len
            invariant
                k <= len,
                len <= dos_path@.len(),
                cut == truncated(dos_path@, room as int),
                len == cut.len(),
                out@ =~= start + upper_all(cut).subrange(0, k as int),
            decreases len - k,
        {
            out.push(to_upper(dos_path[k]));
            k += 1;
        }
        assert(out@ =~= full_path(self@.cwd, dos_path@));
        out
    }

    /// Whether the bytes at a pointer up to `byte`, at most `n`, can be addressed.
    pub fn can_scan(&self, seg: u32, offset: u32, byte: u8, n: u32) -> (r: bool)
        requires
            self.wf(),
            0 < n,
        ensures
            r == reaches_end(self@, seg, offset, byte, n as nat),
    {
        if !self.dpmi_active && seg > 0xffff {
            return false;
        }
        let a: u64 = if self.dpmi_active {
            self.ldt.dpmi_ldt_read(seg).base as u64 + offset as u64
        } else {
            seg as u64 * 16 + (offset % 0x1_0000) as u64
        };
        assert(a == self@.address(seg, offset));
        let len: u64 = self.mem.len() as u64;
        let mut k: u32 = 0;
        while k < n
            invariant
                k <= n,
                0 < n,
                self.wf(),
                len == self@.mem.len(),
                a <= 0x2_0000_0000,
                a == self@.address(seg, offset),
                self.dpmi_active || seg <= 0xffff,
                k > 0 ==> a + k <= len,
                scanned(self@.mem, a as int, byte, n as nat) == k + scanned(
                    self@.mem, a + k, byte, (n - k) as nat,
                ),
            decreases n - k,
        {
            if a + k as u64 >= len {
                return false;
            }
            if self.mem[(a + k as u64) as usize] == byte {
                return true;
            }
            k += 1;
        }
        true
    }

    /// The path at an address: up to a zero byte, at most 128 bytes.
    pub fn read_path(&self, a: u32) -> (r: Vec<u8>)
        requires
            self.wf(),
            a + scanned(self@.mem, a as int, 0, 128) <= self.mem@.len(),
        ensures
            r@ == zero_ended(self@.mem, a as int, 128),
    {
        let mut out: Vec<u8> = Vec::new();
        let mut len: u32 = 0;
        while len < 128 && self.mem[(a + len) as usize] != 0
            invariant
                len <= 128,
                self.wf(),
                a + len + scanned(self@.mem, a + len, 0, (128 - len) as nat) <= self.mem@.len(),
                out@.len() == len,
                out@ + zero_ended(self@.mem, a + len, (128 - len) as nat) =~= zero_ended(
                    self@.mem, a as int, 128,
                ),
            decreases 128 - len,
        {
            out.push(self.mem[(a + len) as usize]);
            len += 1;
        }
        assert(zero_ended(self@.mem, a + len, (128 - len) as nat) =~= Seq::empty());
        assert(out@ =~= zero_ended(self@.mem, a as int, 128));
        out
    }

    /// The current directory as programs see it.
    pub fn bare_cwd(&self) -> (r: Vec<u8>)
        requires
            self.wf(),
        ensures
            r@ == bare_directory(self@.cwd),
            r@.len() <= 63,
    {
        let n: usize = self.cwd.len();
        let skip: usize = if n >= 3 && self.cwd[1] == 0x3A && self.cwd[2] == 0x5C { 3 } else { 0 };
        let mut end: usize = n;
        if end > skip && self.cwd[end - 1] == 0x5C {
            end -= 1;
        }
        let ghost dir = self.cwd@.subrange(skip as int, n as int);
        if end - skip > 63 {
            end = skip + 63;
        }
        let r: Vec<u8> = sub_bytes(self.cwd.as_slice(), skip, end);
        assert(r@ =~= bare_directory(self@.cwd));
        r
    }
}

} // verus!
