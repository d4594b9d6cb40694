//! The files in which the system tells about itself.
use vstd::prelude::*;

use crate::api::io::{IoError, IoResult};
use crate::console::slots::{first_free, inserted, slot, SlotList};
use crate::text::{decimal, push_bytes, push_decimal, push_text, same_text, sub_bytes, text};

verus! {

#[derive(Clone, Copy, PartialEq, Eq, Structural, Debug)]
pub enum ListingType {
    RootDir,
    CPU,
    Drives,
    KernInfo,
    Memory,
}

/// The text in upper case, as Unicode has it.
pub uninterp spec fn unicode_upper(s: Seq<char>) -> Seq<char>;

/// The upper case of an ASCII character.
pub open spec fn ascii_upper(c: char) -> char {
    if 'a' <= c <= 'z' { ((c as u32 - 32) as u8) as char } else { c }
}

/// `str::to_uppercase`: the result depends on the text alone, and ASCII text has its
/// lower-case letters changed. What becomes of other characters is not said.
#[verifier::external_body]
fn to_uppercase(s: &str) -> (r: String)
    ensures
        r@ == unicode_upper(s@),
        s.is_ascii() ==> r@ == s@.map_values(|c: char| ascii_upper(c)),
{
    s.to_uppercase()
}

/// The file of a name in upper case.
pub open spec fn listing_named(upper: Seq<char>) -> Option<ListingType> {
    if upper == "CPU"@ {
        Some(ListingType::CPU)
    } else if upper == "DRIVES"@ {
        Some(ListingType::Drives)
    } else if upper == "KERNINFO"@ {
        Some(ListingType::KernInfo)
    } else if upper == "MEMORY"@ {
        Some(ListingType::Memory)
    } else {
        None
    }
}

impl ListingType {
    /// The file of a name in upper case.
    pub fn from_upper(upper: &str) -> (r: Option<Self>)
        ensures
            r == listing_named(upper@),
    {
        if same_text(upper, "CPU") {
            Some(ListingType::CPU)
        } else if same_text(upper, "DRIVES") {
            Some(ListingType::Drives)
        } else if same_text(upper, "KERNINFO") {
            Some(ListingType::KernInfo)
        } else if same_text(upper, "MEMORY") {
            Some(ListingType::Memory)
        } else {
            None
        }
    }

    /// The file of a name, in any case.
    pub fn from_str(s: &str) -> (r: Option<Self>)
        ensures
            r == listing_named(unicode_upper(s@)),
            s.is_ascii() ==> r == listing_named(s@.map_values(|c: char| ascii_upper(c))),
    {
        let upper: String = to_uppercase(s);
        Self::from_upper(upper.as_str())
    }
}

pub const ROOT_LISTING: &'static str = "CPU\0DRIVES\0KERNINFO\0MEMORY\0";
pub const KERNEL_INFO: &'static str = "IDOS-NX Version 0.1\n";

/// What the files tell of.
pub struct SystemFacts {
    pub user_ticks: u32,
    pub kernel_ticks: u32,
    pub idle_ticks: u32,
    pub total_frames: u32,
    pub free_frames: u32,
    pub drives: Vec<Vec<u8>>,
}

impl SystemFacts {
    /// The times in milliseconds, and the ticks in all, fit in 32 bits.
    pub open spec fn times_fit(&self) -> bool {
        &&& self.user_ticks * 10 <= u32::MAX
        &&& self.kernel_ticks * 10 <= u32::MAX
        &&& self.idle_ticks * 10 <= u32::MAX
        &&& self.user_ticks + self.kernel_ticks + self.idle_ticks <= u32::MAX
    }

    /// The sizes of the memory in KiB fit in 32 bits.
    pub open spec fn sizes_fit(&self) -> bool {
        self.total_frames * 4 <= u32::MAX && self.free_frames * 4 <= u32::MAX
    }

    /// The numbers that a file tells fit in 32 bits.
    pub open spec fn fits(&self, listing: ListingType) -> bool {
        match listing {
            ListingType::CPU => self.times_fit(),
            ListingType::Memory => self.sizes_fit(),
            _ => true,
        }
    }
}

/// The order of byte strings: by the first byte that differs, and a shorter one before
/// a longer that begins with it.
pub open spec fn in_order(a: Seq<u8>, b: Seq<u8>) -> bool
    decreases a.len(),
{
    if a.len() == 0 {
        true
    } else if b.len() == 0 {
        false
    } else {
        a[0] < b[0] || (a[0] == b[0] && in_order(a.skip(1), b.skip(1)))
    }
}

proof fn lemma_total(a: Seq<u8>, b: Seq<u8>)
    ensures
        in_order(a, b) || in_order(b, a),
    decreases a.len(),
{
    if a.len() > 0 && b.len() > 0 {
        lemma_total(a.skip(1), b.skip(1));
    }
}

proof fn lemma_transitive(a: Seq<u8>, b: Seq<u8>, c: Seq<u8>)
    requires
        in_order(a, b),
        in_order(b, c),
    ensures
        in_order(a, c),
    decreases a.len(),
{
    if a.len() > 0 && a[0] == b[0] && b[0] == c[0] {
        lemma_transitive(a.skip(1), b.skip(1), c.skip(1));
    }
}

fn ordered(a: &[u8], b: &[u8]) -> (r: bool)
    ensures
        r == in_order(a@, b@),
{
    let mut i: usize = 0;
    assert(a@.skip(0) =~= a@);
    assert(b@.skip(0) =~= b@);
    while i < a.len() && i < b.len() && a[i] == b[i]
        invariant
            i <= a@.len(),
            i <= b@.len(),
            in_order(a@, b@) == in_order(a@.skip(i as int), b@.skip(i as int)),
        ensures
            i == a@.len() || i == b@.len() || a@[i as int] != b@[i as int],
        decreases a@.len() - i,
    {
        assert(a@.skip(i as int).skip(1) =~= a@.skip(i + 1));
        assert(b@.skip(i as int).skip(1) =~= b@.skip(i + 1));
        i += 1;
    }
    if i == a.len() {
        true
    } else if i == b.len() {
        false
    } else {
        a[i] < b[i]
    }
}

pub open spec fn names_of(v: Seq<Vec<u8>>) -> Seq<Seq<u8>> {
    Seq::new(v.len(), |i: int| v[i]@)
}

/// Each name stands in order with all after it.
pub open spec fn is_sorted(s: Seq<Seq<u8>>) -> bool {
    forall|i: int, j: int| 0 <= i < j < s.len() ==> in_order(#[trigger] s[i], #[trigger] s[j])
}

proof fn lemma_insert_multiset(s: Seq<Seq<u8>>, i: int, x: Seq<u8>)
    requires
        0 <= i <= s.len(),
    ensures
        s.insert(i, x).to_multiset() == s.to_multiset().insert(x),
{
    let t = s.insert(i, x);
    t.to_multiset_ensures();
    s.to_multiset_ensures();
    assert(t.remove(i) =~= s);
    assert(t[i] == x);
    assert(t.to_multiset().count(x) > 0) by {
        assert(t.contains(x));
    }
    assert(t.to_multiset() =~= s.to_multiset().insert(x));
}

fn insert_sorted(v: &mut Vec<Vec<u8>>, x: Vec<u8>)
    requires
        is_sorted(names_of(old(v)@)),
    ensures
        is_sorted(names_of(final(v)@)),
        names_of(final(v)@).to_multiset() == names_of(old(v)@).to_multiset().insert(x@),
{
    let ghost s = names_of(v@);
    let ghost name = x@;
    let mut i: usize = 0;
    while i < v.len() && ordered(v[i].as_slice(), x.as_slice())
        invariant
            s == names_of(v@),
            name == x@,
            i <= v@.len(),
            forall|k: int| 0 <= k < i ==> in_order(#[trigger] s[k], name),
        ensures
            i == v@.len() || !in_order(s[i as int], name),
        decreases v@.len() - i,
    {
        assert(s[i as int] == v@[i as int]@);
        i += 1;
    }
    proof {
        lemma_insert_multiset(s, i as int, name);
        let t = s.insert(i as int, name);
        assert forall|a: int, b: int| 0 <= a < b < t.len() implies in_order(
            #[trigger] t[a], #[trigger] t[b],
        ) by {
            if a < i && b < i {
                assert(t[a] == s[a] && t[b] == s[b]);
            } else if a < i && b == i {
                assert(t[a] == s[a]);
            } else if a < i {
                assert(t[a] == s[a] && t[b] == s[b - 1]);
            } else if a == i {
                assert(t[b] == s[b - 1]);
                lemma_total(s[i as int], name);
                if b - 1 > i {
                    assert(in_order(s[i as int], s[b - 1]));
                    lemma_transitive(name, s[i as int], s[b - 1]);
                }
            } else {
                assert(t[a] == s[a - 1] && t[b] == s[b - 1]);
            }
        }
    }
    v.insert(i, x);
    assert(names_of(v@) =~= s.insert(i as int, name));
}

/// Lines with a line feed between each two.
pub open spec fn lines_joined(s: Seq<Seq<u8>>) -> Seq<u8>
    decreases s.len(),
{
    if s.len() == 0 {
        Seq::empty()
    } else if s.len() == 1 {
        s[0]
    } else {
        lines_joined(s.drop_last()) + seq![0x0Au8] + s.last()
    }
}

/// The drives in order, those of devices among them, a line for each.
pub open spec fn is_drive_list(drives: Seq<Seq<u8>>, r: Seq<u8>) -> bool {
    exists|s: Seq<Seq<u8>>|
        #![trigger lines_joined(s)]
        is_sorted(s) && s.to_multiset() == drives.to_multiset().insert(text("DEV")) && r
            == lines_joined(s)
}

/// The text of the drives.
pub fn generate_drives_content(drives: &Vec<Vec<u8>>) -> (r: Vec<u8>)
    ensures
        is_drive_list(names_of(drives@), r@),
{
    let mut sorted: Vec<Vec<u8>> = Vec::new();
    let ghost all = names_of(drives@);
    let mut i: usize = 0;
    assert(names_of(sorted@) =~= all.subrange(0, 0));
    while i < drives.len()
        invariant
            all == names_of(drives@),
            i <= drives@.len(),
            is_sorted(names_of(sorted@)),
            names_of(sorted@).to_multiset() == all.subrange(0, i as int).to_multiset(),
        decreases drives@.len() - i,
    {
        let name: Vec<u8> = sub_bytes(drives[i].as_slice(), 0, drives[i].len());
        assert(name@ =~= all[i as int]);
        proof {
            all.subrange(0, i as int).to_multiset_ensures();
            assert(all.subrange(0, i + 1) =~= all.subrange(0, i as int).push(all[i as int]));
        }
        insert_sorted(&mut sorted, name);
        i += 1;
    }
    assert(all.subrange(0, drives@.len() as int) =~= all);
    let mut dev: Vec<u8> = Vec::new();
    push_text(&mut dev, "DEV");
    assert(dev@ =~= text("DEV"));
    insert_sorted(&mut sorted, dev);
    let ghost names = names_of(sorted@);
    let mut out: Vec<u8> = Vec::new();
    let mut k: usize = 0;
    assert(names.subrange(0, 0) =~= Seq::empty());
    while k < sorted.len()
        invariant
            names == names_of(sorted@),
            k <= sorted@.len(),
            out@ == lines_joined(names.subrange(0, k as int)),
        decreases sorted@.len() - k,
    {
        let ghost part = names.subrange(0, k + 1);
        assert(part.drop_last() =~= names.subrange(0, k as int));
        assert(part.last() == sorted@[k as int]@);
        if k > 0 {
            out.push(0x0A);
        }
        push_bytes(&mut out, sorted[k].as_slice());
        assert(out@ =~= lines_joined(part));
        k += 1;
    }
    assert(names.subrange(0, sorted@.len() as int) =~= names);
    out
}

/// How long the processor was busy with what.
pub open spec fn cpu_text(f: SystemFacts) -> Seq<u8> {
    text("CPU Usage:\nUser Time: ") + decimal((f.user_ticks * 10) as nat) + text(
        " ms\nKernel Time: ",
    ) + decimal((f.kernel_ticks * 10) as nat) + text(" ms\nIdle Time: ") + decimal(
        (f.idle_ticks * 10) as nat,
    ) + text(" ms\nTotal Ticks: ") + decimal(
        (f.user_ticks + f.kernel_ticks + f.idle_ticks) as nat,
    )
}

/// The text of the processor's times, in milliseconds.
pub fn generate_cpu_content(f: &SystemFacts) -> (r: Vec<u8>)
    requires
        f.times_fit(),
    ensures
        r@ == cpu_text(*f),
{
    let mut out: Vec<u8> = Vec::new();
    push_text(&mut out, "CPU Usage:\nUser Time: ");
    push_decimal(&mut out, (f.user_ticks * 10) as u64);
    push_text(&mut out, " ms\nKernel Time: ");
    push_decimal(&mut out, (f.kernel_ticks * 10) as u64);
    push_text(&mut out, " ms\nIdle Time: ");
    push_decimal(&mut out, (f.idle_ticks * 10) as u64);
    push_text(&mut out, " ms\nTotal Ticks: ");
    push_decimal(&mut out, (f.user_ticks + f.kernel_ticks + f.idle_ticks) as u64);
    assert(out@ =~= cpu_text(*f));
    out
}

/// How much memory there is: a frame has 4 KiB.
pub open spec fn memory_text(f: SystemFacts) -> Seq<u8> {
    text("Total Memory: ") + decimal((f.total_frames * 4) as nat) + text(" KiB\nFree Memory: ")
        + decimal((f.free_frames * 4) as nat) + text(" KiB")
}

/// The text of the memory.
pub fn generate_memory_content(f: &SystemFacts) -> (r: Vec<u8>)
    requires
        f.sizes_fit(),
    ensures
        r@ == memory_text(*f),
{
    let mut out: Vec<u8> = Vec::new();
    push_text(&mut out, "Total Memory: ");
    push_decimal(&mut out, (f.total_frames * 4) as u64);
    push_text(&mut out, " KiB\nFree Memory: ");
    push_decimal(&mut out, (f.free_frames * 4) as u64);
    push_text(&mut out, " KiB");
    assert(out@ =~= memory_text(*f));
    out
}

/// The text of the system's name.
pub fn generate_kerninfo_content() -> (r: Vec<u8>)
    ensures
        r@ == text(KERNEL_INFO),
{
    let mut out: Vec<u8> = Vec::new();
    push_text(&mut out, KERNEL_INFO);
    assert(out@ =~= text(KERNEL_INFO));
    out
}

/// What a file holds.
pub open spec fn is_content(listing: ListingType, f: SystemFacts, r: Seq<u8>) -> bool {
    match listing {
        ListingType::RootDir => r == text(ROOT_LISTING),
        ListingType::CPU => r == cpu_text(f),
        ListingType::Drives => is_drive_list(names_of(f.drives@), r),
        ListingType::KernInfo => r == text(KERNEL_INFO),
        ListingType::Memory => r == memory_text(f),
    }
}

/// The contents of a file.
pub fn content(listing: ListingType, f: &SystemFacts) -> (r: Vec<u8>)
    requires
        f.fits(listing),
    ensures
        is_content(listing, *f, r@),
{
    match listing {
        ListingType::RootDir => {
            let mut out: Vec<u8> = Vec::new();
            push_text(&mut out, ROOT_LISTING);
            assert(out@ =~= text(ROOT_LISTING));
            out
        },
        ListingType::CPU => generate_cpu_content(f),
        ListingType::Drives => generate_drives_content(&f.drives),
        ListingType::KernInfo => generate_kerninfo_content(),
        ListingType::Memory => generate_memory_content(f),
    }
}

/// What a read of `len` bytes at an offset gives.
pub open spec fn chunk(s: Seq<u8>, offset: int, len: int) -> Seq<u8> {
    if offset >= s.len() {
        Seq::empty()
    } else if s.len() - offset < len {
        s.skip(offset)
    } else {
        s.subrange(offset, offset + len)
    }
}

/// What a status says of a file.
#[derive(Clone, Copy, PartialEq, Eq, Structural, Debug)]
pub struct FileStatus {
    pub byte_size: u32,
    pub file_type: u32,
    pub modification_time: u32,
}

/// The open files, by number.
pub struct SysFS {
    pub open_files: SlotList<ListingType>,
}

impl SysFS {
    pub fn new() -> (r: Self)
        ensures
            r.open_files@ == Seq::<Option<ListingType>>::empty(),
    {
        SysFS { open_files: SlotList::new() }
    }

    /// What a path names: an empty one the directory.
    pub open spec fn named(path: Seq<char>) -> Option<ListingType> {
        if path.len() == 0 {
            Some(ListingType::RootDir)
        } else {
            listing_named(unicode_upper(path))
        }
    }

    /// Open a file, under the lowest number that is free.
    pub fn open(&mut self, path: Option<&str>) -> (r: IoResult)
        requires
            old(self).open_files@.len() < u32::MAX,
        ensures
            match path {
                Some(p) => match Self::named(p@) {
                    Some(listing) => r == IoResult::Ok(first_free(old(self).open_files@) as u32)
                        && final(self).open_files@ == inserted(old(self).open_files@, listing),
                    None => r == IoResult::Err(IoError::NotFound) && *final(self) == *old(self),
                },
                None => r == IoResult::Err(IoError::NotFound) && *final(self) == *old(self),
            },
    {
        let p: &str = match path {
            Some(p) => p,
            None => return Err(IoError::NotFound),
        };
        let listing: ListingType = if p.is_empty() {
            ListingType::RootDir
        } else {
            match ListingType::from_str(p) {
                Some(l) => l,
                None => return Err(IoError::NotFound),
            }
        };
        proof { crate::console::slots::lemma_inserted(self.open_files@, listing); }
        let index: usize = self.open_files.insert(listing);
        Ok(index as u32)
    }

    /// Read from a file.
    pub fn read(&self, instance: u32, buffer: &mut [u8], offset: u32, facts: &SystemFacts) -> (r:
        IoResult)
        requires
            slot(self.open_files@, instance as int) matches Some(listing) ==> facts.fits(listing),
        ensures
            match slot(self.open_files@, instance as int) {
                None => r == IoResult::Err(IoError::FileHandleInvalid) && final(buffer)@ == old(
                    buffer,
                )@,
                Some(listing) => exists|s: Seq<u8>| #[trigger]
                    is_content(listing, *facts, s) && ({
                        let part = chunk(s, offset as int, old(buffer)@.len() as int);
                        &&& r == IoResult::Ok(part.len() as u32)
                        &&& final(buffer)@ == part + old(buffer)@.skip(part.len() as int)
                    }),
            },
    {
        let listing: ListingType = match self.open_files.get(instance as usize) {
            Some(l) => *l,
            None => return Err(IoError::FileHandleInvalid),
        };
        let bytes: Vec<u8> = content(listing, facts);
        let n: usize = read_slice(bytes.as_slice(), buffer, offset);
        Ok(n as u32)
    }

    /// The status of an open file: an ordinary file without a size.
    pub fn stat(&self, instance: u32, file_status: &mut FileStatus) -> (r: IoResult)
        ensures
            match slot(self.open_files@, instance as int) {
                None => r == IoResult::Err(IoError::FileHandleInvalid) && *final(file_status)
                    == *old(file_status),
                Some(_) => r == IoResult::Ok(1u32) && *final(file_status) == (FileStatus {
                    byte_size: 0,
                    file_type: 1,
                    modification_time: 0,
                }),
            },
    {
        if self.open_files.get(instance as usize).is_none() {
            return Err(IoError::FileHandleInvalid);
        }
        file_status.byte_size = 0;
        file_status.file_type = 1;
        file_status.modification_time = 0;
        Ok(1)
    }

    /// Close a file. Its number is free again.
    pub fn close(&mut self, instance: u32) -> (r: IoResult)
        ensures
            match slot(old(self).open_files@, instance as int) {
                None => r == IoResult::Err(IoError::FileHandleInvalid),
                Some(_) => r == IoResult::Ok(1u32),
            },
            final(self).open_files@ == (if instance < old(self).open_files@.len() {
                old(self).open_files@.update(instance as int, None)
            } else {
                old(self).open_files@
            }),
    {
        if self.open_files.remove(instance as usize).is_none() {
            Err(IoError::FileHandleInvalid)
        } else {
            Ok(1)
        }
    }
}

/// Copy what lies at an offset to the front of a buffer.
pub fn read_slice(bytes: &[u8], buffer: &mut [u8], offset: u32) -> (n: usize)
    ensures
        n == chunk(bytes@, offset as int, old(buffer)@.len() as int).len(),
        final(buffer)@ == chunk(bytes@, offset as int, old(buffer)@.len() as int) + old(
            buffer,
        )@.skip(n as int),
{
    let len: usize = buffer.len();
    let from: usize = offset as usize;
    if from >= bytes.len() {
        assert(buffer@ =~= Seq::<u8>::empty() + old(buffer)@.skip(0));
        return 0;
    }
    let total: usize = bytes.len();
    let rest: usize = total - from;
    let n: usize = if rest < len { rest } else { len };
    let ghost part = chunk(bytes@, offset as int, len as int);
    let mut i: usize = 0;
    while i < n
        invariant
            i <= n,
            n == part.len(),
            n <= len == old(buffer)@.len(),
            from + n <= total,
            total == bytes@.len(),
            buffer@.len() == len,
            forall|k: int| 0 <= k < n ==> part[k] == bytes@[from + k],
            buffer@ =~= part.subrange(0, i as int) + old(buffer)@.skip(i as int),
        decreases n - i,
    {
        buffer[i] = bytes[from + i];
        i += 1;
    }
    assert(part.subrange(0, n as int) =~= part);
    n
}

/// Reading a file piece by piece gives all of it: the piece at an offset and what
/// follows it are the rest of the file.
pub proof fn pieces_make_the_file(s: Seq<u8>, offset: int, len: int)
    requires
        0 <= offset <= s.len(),
        len > 0,
    ensures
        ({
            let part = chunk(s, offset, len);
            &&& s.subrange(0, offset) + part == s.subrange(0, offset + part.len())
            &&& (part.len() == 0 <==> offset == s.len())
            &&& part.len() <= len
        }),
{
    let part = chunk(s, offset, len);
    assert(s.subrange(0, offset) + part =~= s.subrange(0, offset + part.len()));
}

/// Names are ordered as in a dictionary: by the first byte in which they differ, and a name comes before
/// those that go on where it ends. Of two names one comes first.
pub proof fn names_are_ordered_by_their_bytes(p: Seq<u8>, a: Seq<u8>, b: Seq<u8>)
    ensures
        in_order(p, p + a),
        in_order(p + a, p + b) == in_order(a, b),
        a.len() > 0 && b.len() > 0 && a[0] < b[0] ==> in_order(p + a, p + b) && !in_order(p + b, p + a),
        a.len() > 0 ==> !in_order(p + a, p),
    decreases p.len(),
{
    if p.len() > 0 {
        let q = p.skip(1);
        names_are_ordered_by_their_bytes(q, a, b);
        assert((p + a).skip(1) =~= q + a);
        assert((p + b).skip(1) =~= q + b);
        assert((p + a)[0] == p[0] && (p + b)[0] == p[0]);
    } else {
        assert(p + a =~= a);
        assert(p + b =~= b);
    }
}

/// Lines are joined by line feeds.
pub proof fn lines_are_joined_by_line_feeds(s: Seq<Seq<u8>>, line: Seq<u8>)
    ensures
        lines_joined(seq![line]) == line,
        s.len() > 0 ==> lines_joined(s.push(line)) == lines_joined(s).push(0x0A) + line,
{
    assert(s.push(line).drop_last() =~= s);
    assert(lines_joined(s).push(0x0A) =~= lines_joined(s) + seq![0x0Au8]);
}

} // verus!
