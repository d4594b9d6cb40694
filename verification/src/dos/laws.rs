//! What holds of the services that programs call.
use vstd::prelude::*;

use crate::api::compat::VMRegisters;
use crate::bits::{byte0, word0};
use crate::dos::api::{dollar_length, int21, sought};
use crate::dos::files::{free_handle, full_path, zero_ended};
use crate::dos::machine::{DosFileDescriptor, HostCall, Outcome, Pending, State};
use crate::dos::reply::{open_reply, read_reply, write_reply};

verus! {

/// The carry flag, by which a service tells that it failed.
pub open spec fn carry(r: VMRegisters) -> bool {
    r.eflags % 2 == 1
}

proof fn lemma_carry(x: u32)
    by (bit_vector)
    ensures
        (x | 1) % 2 == 1,
        (x & 0xffff_fffe) % 2 == 0,
{
}

/// The service and its function are called.
pub open spec fn calls_service(r: VMRegisters, ah: int) -> bool {
    (r.eax as int / 0x100) % 0x100 == ah
}

/// An open file on a disk.
pub open spec fn disk_file(m: State, fd: int) -> bool {
    0 <= fd < m.files.len() && m.files[fd].open && !m.files[fd].device
}

/// The number in CX:DX, with its sign.
pub open spec fn distance(r: VMRegisters) -> int {
    let x = (r.ecx as int % 0x1_0000) * 0x1_0000 + r.edx as int % 0x1_0000;
    if x < 0x8000_0000 { x } else { x - 0x1_0000_0000 }
}

/// A file stands at a position: DX:AX tells it, the file has it, and nothing else changed.
pub open spec fn stands_at(m: State, o: Outcome, fd: int, pos: int) -> bool {
    &&& o.m == (State { files: o.m.files, ..m })
    &&& o.m.files == m.files.update(fd, DosFileDescriptor { cursor: pos as u32, ..m.files[fd] })
    &&& (o.regs.edx as int % 0x1_0000) * 0x1_0000 + o.regs.eax as int % 0x1_0000 == pos
    &&& !carry(o.regs)
    &&& o.calls.len() == 0
}

proof fn lemma_sought(m: State, r: VMRegisters, fd: int, pos: int)
    requires
        disk_file(m, fd),
        0 <= pos < 0x1_0000_0000,
    ensures
        stands_at(m, sought(m, r, fd, pos), fd, pos),
{
    lemma_carry(r.eflags);
    let at = pos as u32;
    crate::bits::lemma_parts_independent(r.eax, 0, word0(at));
    crate::bits::lemma_parts_independent(r.edx, 0, crate::bits::word1(at));
    assert(at as int / 0x1_0000 * 0x1_0000 + at as int % 0x1_0000 == at);
}

/// A seek goes to a distance from the start of the file, or from where it stands. The file
/// stands there afterwards, and DX:AX tells the place. A place before the start is an error,
/// and leaves the file where it stands.
#[verifier::rlimit(50)]
pub proof fn seeks_go_where_they_say(m: State, r: VMRegisters)
    requires
        calls_service(r, 0x42),
        disk_file(m, r.ebx as int % 0x1_0000),
        r.eax % 0x100 <= 1,
    ensures
        ({
            let fd = r.ebx as int % 0x1_0000;
            let from = if r.eax % 0x100 == 0 { 0 } else { m.files[fd].cursor as int };
            let to = from + distance(r);
            &&& 0 <= to < 0x1_0000_0000 ==> stands_at(m, int21(m, r), fd, to)
            &&& to < 0 ==> int21(m, r).m == m && carry(int21(m, r).regs) && int21(m, r).regs.eax
                % 0x1_0000 == 0x19 && int21(m, r).calls.len() == 0
        }),
{
    let fd = r.ebx as int % 0x1_0000;
    let from = if r.eax % 0x100 == 0 { 0 } else { m.files[fd].cursor as int };
    let to = from + distance(r);
    lemma_carry(r.eflags);
    crate::bits::lemma_parts_independent(r.eax, 0, 0x19);
    assert(crate::dos::api::seek_distance(r) == distance(r));
    if 0 <= to < 0x1_0000_0000 {
        lemma_sought(m, r, fd, to);
    }
}

/// Seeks add up: a seek to a place and one from there are a seek to their sum. Two seeks from
/// where a file stands are one by the sum of their distances, and a seek by nothing tells
/// where the file stands.
#[verifier::rlimit(50)]
pub proof fn seeks_add_up(m: State, first: VMRegisters, second: VMRegisters)
    requires
        calls_service(first, 0x42),
        calls_service(second, 0x42),
        first.ebx as int % 0x1_0000 == second.ebx as int % 0x1_0000,
        disk_file(m, first.ebx as int % 0x1_0000),
        first.eax % 0x100 <= 1,
        second.eax % 0x100 == 1,
    ensures
        ({
            let fd = first.ebx as int % 0x1_0000;
            let from = if first.eax % 0x100 == 0 { 0 } else { m.files[fd].cursor as int };
            let p = from + distance(first);
            let m1 = int21(m, first).m;
            &&& 0 <= p < 0x1_0000_0000 && 0 <= p + distance(second) < 0x1_0000_0000 ==> stands_at(
                m, int21(m1, second), fd, p + distance(second),
            )
            &&& 0 <= p < 0x1_0000_0000 && distance(second) == 0 ==> int21(m1, second).m == m1
        }),
{
    let fd = first.ebx as int % 0x1_0000;
    let from = if first.eax % 0x100 == 0 { 0 } else { m.files[fd].cursor as int };
    let p = from + distance(first);
    seeks_go_where_they_say(m, first);
    let m1 = int21(m, first).m;
    if 0 <= p < 0x1_0000_0000 {
        seeks_go_where_they_say(m1, second);
        let o = int21(m1, second);
        let q = p + distance(second);
        if 0 <= q < 0x1_0000_0000 {
            assert(o.m.files =~= m.files.update(
                fd, DosFileDescriptor { cursor: q as u32, ..m.files[fd] },
            ));
        }
        if distance(second) == 0 {
            assert(o.m.files =~= m1.files);
        }
    }
}

/// A seek from the end asks for the size of the file, and goes to a distance from it.
#[verifier::rlimit(50)]
pub proof fn seeks_from_the_end(m: State, r: VMRegisters, size: u32)
    requires
        calls_service(r, 0x42),
        disk_file(m, r.ebx as int % 0x1_0000),
        r.eax % 0x100 == 2,
    ensures
        ({
            let fd = r.ebx as int % 0x1_0000;
            let o = int21(m, r);
            &&& o.calls == seq![HostCall::FileSize(m.files[fd].handle)]
            &&& o.m.files == m.files && o.regs == r
            &&& o.m.pending matches Pending::SeekEnd(f, d) && f == fd && d == distance(r)
            &&& 0 <= size + distance(r) < 0x1_0000_0000 ==> stands_at(
                m, sought(m, r, fd, size + distance(r)), fd, size + distance(r),
            )
        }),
{
    let fd = r.ebx as int % 0x1_0000;
    assert(crate::dos::api::seek_distance(r) == distance(r));
    if 0 <= size + distance(r) < 0x1_0000_0000 {
        lemma_sought(m, r, fd, size + distance(r));
    }
}

/// A read asks for bytes of its file from where the file stands, for the memory at DS:DX.
/// What comes lies there afterwards and nothing else in memory changes; AX tells how much it
/// was, and a file on a disk stands behind it, so that the next read takes up there.
#[verifier::rlimit(50)]
pub proof fn reads_take_up_where_the_last_ended(m: State, r: VMRegisters, data: Seq<u8>)
    requires
        calls_service(r, 0x3F),
        ({
            let fd = r.ebx as int % 0x1_0000;
            let a = m.address(r.ds, r.edx);
            &&& 0 <= fd < m.files.len() && m.files[fd].open
            &&& 0 <= a && a + data.len() <= m.mem.len() <= u32::MAX
            &&& data.len() <= 0xffff
            &&& m.files[fd].cursor + data.len() <= u32::MAX
        }),
    ensures
        ({
            let fd = r.ebx as int % 0x1_0000;
            let f = m.files[fd];
            let a = m.address(r.ds, r.edx);
            let n = if m.dpmi_active { r.ecx as int } else { r.ecx as int % 0x1_0000 };
            let asked = int21(m, r);
            let got = read_reply(asked.m, asked.regs, fd as u16, a, fd == 0, Some(data));
            &&& asked.m.pending == Pending::Read(fd as u16, a as u32, n as u32, fd == 0)
            &&& asked.calls.len() > 0
            &&& asked.calls.last() == HostCall::ReadMemory(f.handle, a as u32, n as u32, f.cursor)
            &&& asked.m.mem == m.mem && asked.m.files == m.files
            &&& got.m.mem.len() == m.mem.len()
            &&& got.m.mem.subrange(a, a + data.len()) == data
            &&& forall|i: int|
                0 <= i < m.mem.len() && !(a <= i < a + data.len()) ==> #[trigger] got.m.mem[i]
                    == m.mem[i]
            &&& got.regs.eax as int % 0x1_0000 == data.len() && !carry(got.regs)
            &&& got.m.files.len() == m.files.len()
            &&& got.m.files[fd].cursor == (if f.device { f.cursor as int } else {
                f.cursor + data.len()
            })
            &&& got.m.files[fd].handle == f.handle && got.m.files[fd].open
            &&& forall|j: int|
                0 <= j < m.files.len() && j != fd ==> #[trigger] got.m.files[j] == m.files[j]
        }),
{
    let fd = r.ebx as int % 0x1_0000;
    let a = m.address(r.ds, r.edx);
    let asked = int21(m, r);
    let got = read_reply(asked.m, asked.regs, fd as u16, a, fd == 0, Some(data));
    lemma_carry(r.eflags);
    crate::bits::lemma_parts_independent(r.eax, 0, word0(data.len() as u32));
    assert(got.m.mem.subrange(a, a + data.len()) =~= data);
}

/// A read that fails gives nothing, and is no error.
pub proof fn failed_reads_give_nothing(m: State, r: VMRegisters, fd: u16, a: int, stdin: bool)
    ensures
        ({
            let got = read_reply(m, r, fd, a, stdin, None);
            &&& got.m.mem == m.mem && got.m.files == m.files
            &&& got.regs.eax % 0x1_0000 == 0 && !carry(got.regs)
        }),
{
    lemma_carry(r.eflags);
    crate::bits::lemma_parts_independent(r.eax, 0, 0);
}

/// A write hands the memory at DS:DX to its file, from where the file stands. AX tells how much
/// was written, and a file on a disk stands behind it. A write that fails is an error, and
/// leaves the file where it stands.
#[verifier::rlimit(50)]
pub proof fn writes_take_up_where_the_last_ended(m: State, r: VMRegisters, k: u32)
    requires
        calls_service(r, 0x40),
        ({
            let fd = r.ebx as int % 0x1_0000;
            &&& 0 <= fd < m.files.len() && m.files[fd].open
            &&& k <= 0xffff
            &&& m.files[fd].cursor + k <= u32::MAX
        }),
    ensures
        ({
            let fd = r.ebx as int % 0x1_0000;
            let f = m.files[fd];
            let n = if m.dpmi_active { r.ecx as int } else { r.ecx as int % 0x1_0000 };
            let asked = int21(m, r);
            let (after, regs) = write_reply(asked.m, asked.regs, fd as u16, Some(k));
            let (kept, failed) = write_reply(asked.m, asked.regs, fd as u16, None);
            &&& asked.m.pending == Pending::Write(fd as u16)
            &&& asked.calls == seq![
                HostCall::WriteMemory(
                    f.handle, m.address(r.ds, r.edx) as u32, n as u32, f.cursor,
                ),
            ]
            &&& after.mem == m.mem
            &&& regs.eax as int % 0x1_0000 == k && !carry(regs)
            &&& after.files.len() == m.files.len()
            &&& after.files[fd].cursor == (if f.device { f.cursor as int } else { f.cursor + k })
            &&& after.files[fd].handle == f.handle && after.files[fd].open
            &&& forall|j: int|
                0 <= j < m.files.len() && j != fd ==> #[trigger] after.files[j] == m.files[j]
            &&& kept.files == m.files && kept.mem == m.mem
            &&& failed.eax % 0x1_0000 == 5 && carry(failed)
        }),
{
    lemma_carry(r.eflags);
    crate::bits::lemma_parts_independent(r.eax, 0, word0(k));
    crate::bits::lemma_parts_independent(r.eax, 0, 5);
}

proof fn lemma_free_handle(files: Seq<DosFileDescriptor>, i: int)
    requires
        0 <= i,
        files.len() == 20,
    ensures
        free_handle(files, i) matches Some(fd) ==> i <= fd < 20 && !files[fd as int].open && forall|
            j: int,
        | i <= j < fd ==> (#[trigger] files[j]).open,
        free_handle(files, i) is None ==> forall|j: int| i <= j < 20 ==> (#[trigger] files[j]).open,
    decreases files.len() - i,
{
    if i < files.len() && files[i].open {
        lemma_free_handle(files, i + 1);
    }
}

/// A program that opens or creates a file gets the lowest number from five on that is free, and
/// the file stands at its start. Files that were open stay as they were. Without a free number
/// there is an error, and so there is where the file cannot be opened.
pub proof fn opened_files_get_a_free_number(m: State, r: VMRegisters, handle: u32)
    requires
        calls_service(r, 0x3C) || calls_service(r, 0x3D),
        m.files.len() == 20,
    ensures
        ({
            let asked = int21(m, r);
            let full = forall|j: int| 5 <= j < 20 ==> (#[trigger] m.files[j]).open;
            &&& full ==> asked.m == m && asked.calls.len() == 0 && carry(asked.regs)
                && asked.regs.eax % 0x1_0000 == 4
            &&& !full ==> {
                &&& asked.m.pending matches Pending::Open(fd) && {
                    let (after, regs) = open_reply(asked.m, asked.regs, fd, Some(handle));
                    let (none, failed) = open_reply(asked.m, asked.regs, fd, None);
                    &&& 5 <= fd < 20 && !m.files[fd as int].open
                    &&& forall|j: int| 5 <= j < fd ==> (#[trigger] m.files[j]).open
                    &&& asked.calls == seq![HostCall::OpenFile(calls_service(r, 0x3C))]
                    &&& regs.eax as int % 0x1_0000 == fd && !carry(regs)
                    &&& after.files.len() == 20
                    &&& after.files[fd as int].open && after.files[fd as int].handle == handle
                    &&& after.files[fd as int].cursor == 0 && !after.files[fd as int].device
                    &&& forall|j: int|
                        0 <= j < 20 && j != fd ==> #[trigger] after.files[j] == m.files[j]
                    &&& none.files == m.files
                    &&& failed.eax % 0x1_0000 == 2 && carry(failed)
                }
            }
        }),
{
    lemma_free_handle(m.files, 5);
    lemma_carry(r.eflags);
    crate::bits::lemma_parts_independent(r.eax, 0, 4);
    crate::bits::lemma_parts_independent(r.eax, 0, 2);
    let asked = int21(m, r);
    if let Some(fd) = free_handle(m.files, 5) {
        crate::bits::lemma_parts_independent(r.eax, 0, fd);
        assert(!m.files[fd as int].open);
        assert(asked.calls == seq![HostCall::OpenFile(calls_service(r, 0x3C))]);
    }
}

/// A file that was closed is not open any more, and other files stay open. The system's own
/// handle is given back, but not that of a device. Services on a number under which nothing is
/// open are an error.
pub proof fn closed_files_are_gone(m: State, r: VMRegisters, again: VMRegisters)
    requires
        calls_service(r, 0x3E),
        r.ebx % 0x1_0000 < m.files.len(),
        m.files[r.ebx as int % 0x1_0000].open,
        again.ebx % 0x1_0000 == r.ebx % 0x1_0000,
        calls_service(again, 0x3E) || calls_service(again, 0x3F) || calls_service(again, 0x40)
            || calls_service(again, 0x42),
    ensures
        ({
            let fd = r.ebx as int % 0x1_0000;
            let o = int21(m, r);
            &&& !o.m.files[fd].open
            &&& o.m.files.len() == m.files.len()
            &&& forall|j: int|
                0 <= j < m.files.len() && j != fd ==> #[trigger] o.m.files[j] == m.files[j]
            &&& !carry(o.regs)
            &&& !m.files[fd].device ==> o.calls == seq![HostCall::CloseFile(m.files[fd].handle)]
            &&& m.files[fd].device ==> o.calls.len() == 0
            &&& int21(o.m, again).m == o.m
            &&& carry(int21(o.m, again).regs)
            &&& int21(o.m, again).regs.eax % 0x1_0000 == 6
        }),
{
    lemma_carry(r.eflags);
    lemma_carry(again.eflags);
    crate::bits::lemma_parts_independent(again.eax, 0, 6);
}

/// The vector of an interrupt that a program sets is the vector that it gets, and vectors of
/// other interrupts stay.
#[verifier::rlimit(50)]
pub proof fn vectors_are_kept(m: State, set: VMRegisters, get: VMRegisters)
    requires
        calls_service(set, 0x25),
        calls_service(get, 0x35),
        0x400 <= m.mem.len(),
    ensures
        ({
            let after = int21(m, set).m;
            let o = int21(after, get);
            &&& o.m == after
            &&& get.eax % 0x100 == set.eax % 0x100 ==> o.regs.ebx == set.edx % 0x1_0000 && o.regs.es
                == set.ds % 0x1_0000
            &&& get.eax % 0x100 != set.eax % 0x100 ==> o.regs == int21(m, get).regs
            &&& forall|i: int| 0x400 <= i < m.mem.len() ==> #[trigger] after.mem[i] == m.mem[i]
        }),
{
}

proof fn lemma_dollar(mem: Seq<u8>, a: int, n: nat)
    ensures
        dollar_length(mem, a, n) <= n,
        forall|i: int| a <= i < a + dollar_length(mem, a, n) ==> #[trigger] mem[i] != 0x24,
        dollar_length(mem, a, n) < n ==> mem[a + dollar_length(mem, a, n)] == 0x24,
    decreases n,
{
    if n > 0 && mem[a] != 0x24 {
        lemma_dollar(mem, a + 1, (n - 1) as nat);
    }
}

/// A string is printed from DS:DX up to its first dollar sign, which is not printed. At most 256
/// bytes are.
pub proof fn strings_end_at_a_dollar_sign(m: State, r: VMRegisters)
    requires
        calls_service(r, 0x09),
    ensures
        ({
            let o = int21(m, r);
            let a = m.address(r.ds, r.edx);
            &&& o.m == m && o.regs == r && o.calls.len() == 1
            &&& o.calls[0] matches HostCall::WriteMemory(1, at, n, 0) && {
                &&& at == a as u32 && n <= 256
                &&& forall|i: int| a <= i < a + n ==> #[trigger] m.mem[i] != 0x24
                &&& n == 256 || m.mem[a + n] == 0x24
            }
        }),
{
    lemma_dollar(m.mem, m.address(r.ds, r.edx), 256);
}

proof fn lemma_zero_ended(mem: Seq<u8>, a: int, n: nat, name: Seq<u8>)
    requires
        0 <= a,
        a + name.len() < mem.len(),
        name.len() < n,
        mem.subrange(a, a + name.len()) == name,
        mem[a + name.len()] == 0,
        !name.contains(0),
    ensures
        zero_ended(mem, a, n) == name,
    decreases name.len(),
{
    if name.len() == 0 {
        assert(zero_ended(mem, a, n) =~= name);
    } else {
        let rest = name.drop_first();
        assert(mem[a] == name[0]) by {
            assert(mem.subrange(a, a + name.len())[0] == mem[a]);
        }
        assert(name.contains(name[0]));
        assert(mem.subrange(a + 1, a + 1 + rest.len()) =~= rest) by {
            assert forall|i: int| 0 <= i < rest.len() implies #[trigger] mem.subrange(
                a + 1, a + 1 + rest.len(),
            )[i] == rest[i] by {
                assert(mem.subrange(a, a + name.len())[i + 1] == name[i + 1]);
            }
        }
        assert(!rest.contains(0)) by {
            if rest.contains(0) {
                let i = choose|i: int| 0 <= i < rest.len() && rest[i] == 0;
                assert(name[i + 1] == 0);
            }
        }
        lemma_zero_ended(mem, a + 1, (n - 1) as nat, rest);
        assert(zero_ended(mem, a, n) =~= name);
    }
}

/// The bytes of a name in upper case.
pub open spec fn in_upper_case(out: Seq<u8>, name: Seq<u8>) -> bool {
    out.len() == name.len() && forall|i: int|
        0 <= i < name.len() ==> #[trigger] out[i] == (if 0x61 <= name[i] <= 0x7A {
            (name[i] - 0x20) as u8
        } else {
            name[i]
        })
}

/// A file is named by the bytes at DS:DX up to a zero. A name with a colon stands by itself,
/// any other lies in the current directory. Letters are in upper case. The services that open,
/// create and remove a file all name it so, and a rename names the new one at ES:DI.
pub proof fn files_are_named_in_memory(m: State, r: VMRegisters, name: Seq<u8>)
    requires
        calls_service(r, 0x3C) || calls_service(r, 0x3D) || calls_service(r, 0x41)
            || calls_service(r, 0x56),
        m.files.len() == 20,
        calls_service(r, 0x3C) || calls_service(r, 0x3D) ==> exists|j: int|
            5 <= j < 20 && !(#[trigger] m.files[j]).open,
        ({
            let a = m.address(r.ds, r.edx);
            &&& 0 <= a && a + name.len() < m.mem.len()
            &&& m.mem.subrange(a, a + name.len()) == name
            &&& m.mem[a + name.len()] == 0
        }),
        !name.contains(0),
        name.len() < 128,
        m.cwd.len() + name.len() <= 256,
    ensures
        ({
            let path = int21(m, r).m.path;
            &&& name.contains(0x3A) ==> in_upper_case(path, name)
            &&& !name.contains(0x3A) ==> path.len() == m.cwd.len() + name.len() && path.take(
                m.cwd.len() as int,
            ) == m.cwd && in_upper_case(path.skip(m.cwd.len() as int), name)
            &&& calls_service(r, 0x41) ==> int21(m, r).calls == seq![HostCall::RemoveFile]
            &&& calls_service(r, 0x56) ==> int21(m, r).calls == seq![HostCall::RenameFile]
        }),
{
    let a = m.address(r.ds, r.edx);
    lemma_zero_ended(m.mem, a, 128, name);
    lemma_free_handle(m.files, 5);
    let path = int21(m, r).m.path;
    assert(path == full_path(m.cwd, name));
    if !name.contains(0x3A) {
        assert(path.take(m.cwd.len() as int) =~= m.cwd);
    }
}

/// The new name of a rename is read like the old one.
pub proof fn renames_name_the_new_file(m: State, r: VMRegisters, name: Seq<u8>)
    requires
        calls_service(r, 0x56),
        ({
            let a = m.address(r.es, r.edi);
            &&& 0 <= a && a + name.len() < m.mem.len()
            &&& m.mem.subrange(a, a + name.len()) == name
            &&& m.mem[a + name.len()] == 0
        }),
        !name.contains(0),
        name.len() < 128,
        m.cwd.len() + name.len() <= 256,
    ensures
        ({
            let path = int21(m, r).m.new_path;
            &&& name.contains(0x3A) ==> in_upper_case(path, name)
            &&& !name.contains(0x3A) ==> path.len() == m.cwd.len() + name.len() && path.take(
                m.cwd.len() as int,
            ) == m.cwd && in_upper_case(path.skip(m.cwd.len() as int), name)
        }),
{
    let a = m.address(r.es, r.edi);
    lemma_zero_ended(m.mem, a, 128, name);
    let path = int21(m, r).m.new_path;
    assert(path == full_path(m.cwd, name));
    if !name.contains(0x3A) {
        assert(path.take(m.cwd.len() as int) =~= m.cwd);
    }
}

/// A character goes to the screen or the serial line as it is in DL, and one that is typed comes
/// back in AL and on the screen.
pub proof fn characters_pass_unchanged(m: State, r: VMRegisters, b: u8)
    ensures
        calls_service(r, 0x02) ==> int21(m, r).calls == seq![HostCall::WriteByte(1, byte0(r.edx))],
        calls_service(r, 0x04) ==> int21(m, r).calls == seq![HostCall::WriteByte(2, byte0(r.edx))],
        calls_service(r, 0x01) ==> int21(m, r).m.pending is StdinChar && int21(m, r).calls == seq![
            HostCall::ReadByte(0),
        ],
        crate::dos::reply::stdin_reply(m, r, Some(b)).regs.eax as int % 0x100 == b,
        crate::dos::reply::stdin_reply(m, r, Some(b)).calls == seq![HostCall::WriteByte(1, b)],
        crate::dos::reply::aux_reply(m, r, Some(b)).1.eax as int % 0x100 == b,
        calls_service(r, 0x4C) ==> int21(m, r).calls == seq![HostCall::Exit((r.eax % 0x100) as u32)],
{
    crate::bits::lemma_parts_independent(r.eax, b, 0);
}

} // verus!
