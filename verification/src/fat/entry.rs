//! Directory entries: the 32-byte records that name files and subdirectories.
use vstd::prelude::*;

use crate::bits::{byte0, byte1, u16_from_bytes, u16_of, u32_bytes, u32_from_bytes, u32_of};
use crate::text::is_utf8;
use crate::fat::stamp::{encode_timestamp, FileDate, FileTime};
use crate::time::calendar::timestamp_of;

verus! {

/// A directory entry, byte for byte as on disk.
///
/// | bytes | meaning |
/// |---|---|
/// | 0..8 | file name, padded with spaces |
/// | 8..11 | extension, padded with spaces |
/// | 11 | attributes |
/// | 12 | reserved |
/// | 13 | creation time, fine part |
/// | 14..16, 16..18 | creation time and date |
/// | 18..20 | access date |
/// | 20..22 | extended attributes |
/// | 22..24, 24..26 | modification time and date |
/// | 26..28 | first cluster |
/// | 28..32 | size in bytes |
#[derive(Clone, Copy, Debug)]
pub struct DirEntry {
    pub raw: [u8; 32],
}

impl View for DirEntry {
    type V = Seq<u8>;

    open spec fn view(&self) -> Seq<u8> {
        self.raw@
    }
}

/// The entry is free: never used, or deleted.
pub open spec fn entry_free(r: Seq<u8>) -> bool {
    r[0] == 0x00 || r[0] == 0xe5
}

pub open spec fn entry_is_dir(r: Seq<u8>) -> bool {
    r[11] & 0x10 != 0
}

pub open spec fn entry_cluster(r: Seq<u8>) -> u16 {
    u16_of(r[26], r[27])
}

pub open spec fn entry_size(r: Seq<u8>) -> u32 {
    u32_of(r[28], r[29], r[30], r[31])
}

pub open spec fn entry_modified_time(r: Seq<u8>) -> FileTime {
    FileTime(u16_of(r[22], r[23]))
}

pub open spec fn entry_modified_date(r: Seq<u8>) -> FileDate {
    FileDate(u16_of(r[24], r[25]))
}

/// The modification time in seconds since 1980.
pub open spec fn entry_modified(r: Seq<u8>) -> int {
    let d = entry_modified_date(r);
    let t = entry_modified_time(r);
    timestamp_of(d.year(), d.month(), d.day(), t.hours(), t.minutes(), t.seconds())
}

/// The modification date has a day, if it has a month.
pub open spec fn entry_date_valid(r: Seq<u8>) -> bool {
    let d = entry_modified_date(r);
    1 <= d.month() <= 12 ==> 1 <= d.day()
}

/// The bytes before the first space.
pub open spec fn until_space(s: Seq<u8>) -> Seq<u8>
    decreases s.len(),
{
    if s.len() == 0 || s[0] == 0x20 {
        Seq::empty()
    } else {
        seq![s[0]] + until_space(s.drop_first())
    }
}

/// The name as shown: its bytes up to the first space, or exclamation marks where
/// they are not UTF-8.
pub open spec fn shown_or_marks(s: Seq<u8>) -> Seq<u8> {
    let cut = until_space(s);
    if vstd::utf8::valid_utf8(cut) { cut } else { Seq::new(s.len(), |i: int| 0x21u8) }
}

pub open spec fn entry_name(r: Seq<u8>) -> Seq<u8> {
    shown_or_marks(r.subrange(0, 8))
}

pub open spec fn entry_ext(r: Seq<u8>) -> Seq<u8> {
    shown_or_marks(r.subrange(8, 11))
}

/// The name with its extension, if it has one.
pub open spec fn entry_full_name(r: Seq<u8>) -> Seq<u8> {
    if r[8] != 0x20 { entry_name(r) + seq![0x2eu8] + entry_ext(r) } else { entry_name(r) }
}

/// Two bytes are the same letter, in either case, or the same byte.
pub open spec fn same_letter(a: u8, b: u8) -> bool {
    a == b || (0x41 <= a <= 0x5a && a + 0x20 == b) || (0x61 <= a <= 0x7a && a == b + 0x20)
}

/// The entry has this name and extension, without regard to case.
pub open spec fn entry_matches(r: Seq<u8>, name: Seq<u8>, ext: Seq<u8>) -> bool {
    (forall|i: int| 0 <= i < 8 ==> same_letter(#[trigger] r[i], name[i]))
        && (forall|i: int| 0 <= i < 3 ==> same_letter(r[8 + i], #[trigger] ext[i]))
}

/// Letters match both ways round, and a name matches itself.
pub proof fn name_matching_is_symmetric(r: Seq<u8>, s: Seq<u8>)
    requires
        r.len() == 32,
        s.len() == 32,
    ensures
        entry_matches(r, r.subrange(0, 8), r.subrange(8, 11)),
        entry_matches(r, s.subrange(0, 8), s.subrange(8, 11)) == entry_matches(
            s, r.subrange(0, 8), r.subrange(8, 11),
        ),
{
    assert(forall|a: u8, b: u8| same_letter(a, b) == same_letter(b, a));
    if entry_matches(r, s.subrange(0, 8), s.subrange(8, 11)) {
        assert forall|i: int| 0 <= i < 8 implies same_letter(#[trigger] s[i], r.subrange(0, 8)[i]) by {
            assert(same_letter(r[i], s.subrange(0, 8)[i]));
        }
        assert forall|i: int| 0 <= i < 3 implies same_letter(s[8 + i], #[trigger] r.subrange(8, 11)[i]) by {
            assert(same_letter(r[8 + i], s.subrange(8, 11)[i]));
        }
    }
    if entry_matches(s, r.subrange(0, 8), r.subrange(8, 11)) {
        assert forall|i: int| 0 <= i < 8 implies same_letter(#[trigger] r[i], s.subrange(0, 8)[i]) by {
            assert(same_letter(s[i], r.subrange(0, 8)[i]));
        }
        assert forall|i: int| 0 <= i < 3 implies same_letter(r[8 + i], #[trigger] s.subrange(8, 11)[i]) by {
            assert(same_letter(s[8 + i], r.subrange(8, 11)[i]));
        }
    }
}

/// The record with two bytes at `at` set to a little-endian word.
pub open spec fn with_u16(r: Seq<u8>, at: int, v: u16) -> Seq<u8> {
    r.update(at, (v % 256) as u8).update(at + 1, (v / 256) as u8)
}

pub open spec fn with_u32(r: Seq<u8>, at: int, v: u32) -> Seq<u8> {
    r.update(at, byte0(v)).update(at + 1, byte1(v)).update(at + 2, crate::bits::byte2(v)).update(
        at + 3, crate::bits::byte3(v),
    )
}

/// The record with a name and an extension.
pub open spec fn with_name(r: Seq<u8>, name: Seq<u8>, ext: Seq<u8>) -> Seq<u8> {
    name + ext + r.subrange(11, 32)
}

/// A blank entry: a name of spaces, and zeros.
pub open spec fn blank_entry() -> Seq<u8> {
    Seq::new(32, |i: int| if i < 11 { 0x20u8 } else { 0u8 })
}

fn char_matches(a: u8, b: u8) -> (r: bool)
    ensures
        r == same_letter(a, b),
{
    if a > 0x40 && a < 0x5b {
        return a == b || (a + 0x20) == b;
    }
    if a > 0x60 && a < 0x7b {
        return a == b || a - 0x20 == b;
    }
    a == b
}

fn shown_name(s: &[u8]) -> (r: Vec<u8>)
    ensures
        r@ == shown_or_marks(s@),
{
    let mut cut: Vec<u8> = Vec::new();
    let mut i: usize = 0;
    assert(s@.subrange(0, s@.len() as int) =~= s@);
    while i < s.len() && s[i] != 0x20
        invariant
            i <= s@.len(),
            cut@.len() == i,
            cut@ + until_space(s@.subrange(i as int, s@.len() as int)) =~= until_space(s@),
        decreases s@.len() - i,
    {
        let ghost rest = s@.subrange(i as int, s@.len() as int);
        assert(rest.drop_first() =~= s@.subrange(i + 1, s@.len() as int));
        cut.push(s[i]);
        i += 1;
    }
    assert(until_space(s@.subrange(i as int, s@.len() as int)) =~= Seq::empty());
    assert(cut@ =~= until_space(s@));
    if is_utf8(cut.as_slice()) {
        cut
    } else {
        let mut marks: Vec<u8> = Vec::new();
        let mut k: usize = 0;
        while k < s.len()
            invariant
                k <= s@.len(),
                marks@ =~= Seq::new(k as nat, |i: int| 0x21u8),
            decreases s@.len() - k,
        {
            marks.push(0x21);
            k += 1;
        }
        marks
    }
}

impl DirEntry {
    pub fn new() -> (r: Self)
        ensures
            r@ == blank_entry(),
    {
        let mut raw: [u8; 32] = [0u8; 32];
        let mut i: usize = 0;
        while i < 11
            invariant
                i <= 11,
                forall|k: int| 0 <= k < 32 ==> #[trigger] raw@[k] == (if k < i { 0x20u8 } else { 0u8 }),
            decreases 11 - i,
        {
            raw[i] = 0x20;
            i += 1;
        }
        assert(raw@ =~= blank_entry());
        DirEntry { raw }
    }

    pub fn is_empty(&self) -> (r: bool)
        ensures
            r == entry_free(self@),
    {
        match self.raw[0] {
            0x00 => true,
            0xe5 => true,
            _ => false,
        }
    }

    /// The name, without its padding.
    pub fn get_filename(&self) -> (r: Vec<u8>)
        ensures
            r@ == entry_name(self@),
    {
        shown_name(vstd::slice::slice_subrange(self.raw.as_slice(), 0, 8))
    }

    /// The name and, after a dot, the extension if there is one.
    pub fn get_full_name(&self) -> (r: Vec<u8>)
        ensures
            r@ == entry_full_name(self@),
    {
        let mut name: Vec<u8> = self.get_filename();
        if self.raw[8] != 0x20 {
            name.push(0x2e);
            crate::text::push_bytes(&mut name, self.get_ext().as_slice());
            assert(name@ =~= entry_full_name(self@));
        }
        name
    }

    /// The extension, without its padding.
    pub fn get_ext(&self) -> (r: Vec<u8>)
        ensures
            r@ == entry_ext(self@),
    {
        shown_name(vstd::slice::slice_subrange(self.raw.as_slice(), 8, 11))
    }

    /// The modification time in seconds since 1980.
    pub fn get_modification_timestamp(&self) -> (r: u32)
        requires
            entry_date_valid(self@),
        ensures
            r == entry_modified(self@),
    {
        let mod_time: FileTime = FileTime(u16_from_bytes(self.raw[22], self.raw[23]));
        let mod_date: FileDate = FileDate(u16_from_bytes(self.raw[24], self.raw[25]));
        encode_timestamp(
            mod_date.get_year(),
            mod_date.get_month(),
            mod_date.get_day(),
            mod_time.get_hours(),
            mod_time.get_minutes(),
            mod_time.get_seconds(),
        )
    }

    pub fn is_directory(&self) -> (r: bool)
        ensures
            r == entry_is_dir(self@),
    {
        self.raw[11] & 0x10 != 0
    }

    pub fn set_size(&mut self, size: u32)
        ensures
            final(self)@ == with_u32(old(self)@, 28, size),
            entry_size(final(self)@) == size,
    {
        let (a, b, c, d) = u32_bytes(size);
        self.raw[28] = a;
        self.raw[29] = b;
        self.raw[30] = c;
        self.raw[31] = d;
        proof { crate::bits::bytes_round_trip(size, a, b, c, d); }
        assert(self@ =~= with_u32(old(self)@, 28, size));
    }

    fn set_u16(&mut self, at: usize, v: u16)
        requires
            at + 1 < 32,
        ensures
            final(self)@ == with_u16(old(self)@, at as int, v),
    {
        self.raw[at] = (v % 256) as u8;
        self.raw[at + 1] = (v / 256) as u8;
        assert(self@ =~= with_u16(old(self)@, at as int, v));
    }

    pub fn set_first_cluster(&mut self, cluster: u16)
        ensures
            final(self)@ == with_u16(old(self)@, 26, cluster),
            entry_cluster(final(self)@) == cluster,
    {
        self.set_u16(26, cluster);
    }

    pub fn set_filename(&mut self, filename: &[u8; 8], ext: &[u8; 3])
        ensures
            final(self)@ == with_name(old(self)@, filename@, ext@),
    {
        let mut i: usize = 0;
        while i < 11
            invariant
                i <= 11,
                forall|k: int| 0 <= k < i ==> #[trigger] self.raw@[k] == (if k < 8 {
                    filename@[k]
                } else {
                    ext@[k - 8]
                }),
                forall|k: int| i <= k < 32 ==> #[trigger] self.raw@[k] == old(self).raw@[k],
            decreases 11 - i,
        {
            self.raw[i] = if i < 8 { filename[i] } else { ext[i - 8] };
            i += 1;
        }
        assert(self@ =~= with_name(old(self)@, filename@, ext@));
    }

    pub fn set_attributes(&mut self, attributes: u8)
        ensures
            final(self)@ == old(self)@.update(11, attributes),
    {
        self.raw[11] = attributes;
        assert(self@ =~= old(self)@.update(11, attributes));
    }

    pub fn first_file_cluster(&self) -> (r: u16)
        ensures
            r == entry_cluster(self@),
    {
        u16_from_bytes(self.raw[26], self.raw[27])
    }

    pub fn byte_size(&self) -> (r: u32)
        ensures
            r == entry_size(self@),
    {
        u32_from_bytes(self.raw[28], self.raw[29], self.raw[30], self.raw[31])
    }

    pub fn mark_deleted(&mut self)
        ensures
            final(self)@ == old(self)@.update(0, 0xe5),
    {
        self.raw[0] = 0xe5;
        assert(self@ =~= old(self)@.update(0, 0xe5));
    }

    /// Whether the entry has this name, without regard to case.
    pub fn matches_name(&self, filename: &[u8; 8], ext: &[u8; 3]) -> (r: bool)
        ensures
            r == entry_matches(self@, filename@, ext@),
    {
        let mut i: usize = 0;
        while i < 8
            invariant
                i <= 8,
                forall|k: int| 0 <= k < i ==> same_letter(#[trigger] self@[k], filename@[k]),
            decreases 8 - i,
        {
            if !char_matches(self.raw[i], filename[i]) {
                assert(!same_letter(self@[i as int], filename@[i as int]));
                return false;
            }
            i += 1;
        }
        let mut j: usize = 0;
        while j < 3
            invariant
                j <= 3,
                forall|k: int| 0 <= k < j ==> same_letter(self@[8 + k], #[trigger] ext@[k]),
            decreases 3 - j,
        {
            if !char_matches(self.raw[8 + j], ext[j]) {
                assert(!same_letter(self@[8 + j], ext@[j as int]));
                return false;
            }
            j += 1;
        }
        true
    }

    /// Set creation, modification and access to one date and time.
    pub fn set_stamps(&mut self, date: FileDate, time: FileTime)
        ensures
            final(self)@ == stamped(old(self)@, date, time),
    {
        self.set_u16(14, time.0);
        self.set_u16(16, date.0);
        self.set_u16(18, date.0);
        self.set_u16(22, time.0);
        self.set_u16(24, date.0);
    }
}

/// The record with creation, modification and access at one date and time.
pub open spec fn stamped(r: Seq<u8>, date: FileDate, time: FileTime) -> Seq<u8> {
    with_u16(
        with_u16(
            with_u16(with_u16(with_u16(r, 14, time.0), 16, date.0), 18, date.0), 22, time.0,
        ),
        24,
        date.0,
    )
}

/// A new entry, empty but for its name, attributes and first cluster.
pub open spec fn fresh_entry(
    name: Seq<u8>, ext: Seq<u8>, attributes: u8, cluster: u16, date: FileDate, time: FileTime,
) -> Seq<u8> {
    stamped(
        with_u16(with_name(blank_entry(), name, ext).update(11, attributes), 26, cluster), date, time,
    )
}

} // verus!
