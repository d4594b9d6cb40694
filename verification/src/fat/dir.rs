//! Directories: the root directory and subdirectories, as lists of slots.
use vstd::prelude::*;

use crate::bytes::spliced;
use crate::fat::disk::{DiskAccess, DiskIO};
use crate::fat::entry::{
    entry_cluster, entry_date_valid, entry_free, entry_full_name, entry_is_dir, entry_matches,
    entry_modified, entry_name, fresh_entry, DirEntry,
};
use crate::fat::file::File;
use crate::fat::stamp::{decode_timestamp, decoded, FileDate, FileTime};
use crate::fat::table::{
    chain, chain_ends, fat_set, free_cluster, lemma_chain_holds, lemma_chain_unfold,
    lemma_cluster_on_disk, next_cluster, AllocationTable,
};
use crate::text::{push_bytes, to_upper, upper};

verus! {

/// The record in the slot at `off`.
pub open spec fn record_at(img: Seq<u8>, off: int) -> Seq<u8> {
    img.subrange(off, off + 32)
}

/// Every slot lies on the disk.
pub open spec fn slots_on_disk(slots: Seq<u32>, len: int) -> bool {
    forall|i: int| 0 <= i < slots.len() ==> (#[trigger] slots[i]) + 32 <= len
}

/// The entries of a subdirectory from slot `i` on: up to the first slot never
/// used, without deleted entries. Each with the offset of its slot.
pub open spec fn sub_listing(img: Seq<u8>, slots: Seq<u32>, i: int) -> Seq<(Seq<u8>, u32)>
    decreases slots.len() - i,
{
    if i >= slots.len() || record_at(img, slots[i] as int)[0] == 0x00 {
        Seq::empty()
    } else if record_at(img, slots[i] as int)[0] == 0xe5 {
        sub_listing(img, slots, i + 1)
    } else {
        seq![(record_at(img, slots[i] as int), slots[i])] + sub_listing(img, slots, i + 1)
    }
}

/// The entries of the root directory from slot `i` on: up to the first free slot,
/// never that of the last slot.
pub open spec fn root_listing(img: Seq<u8>, slots: Seq<u32>, i: int) -> Seq<(Seq<u8>, u32)>
    decreases slots.len() - i,
{
    if i + 1 >= slots.len() || entry_free(record_at(img, slots[i] as int)) {
        Seq::empty()
    } else {
        seq![(record_at(img, slots[i] as int), slots[i])] + root_listing(img, slots, i + 1)
    }
}

/// The first entry of a listing that has a name.
pub open spec fn first_match(l: Seq<(Seq<u8>, u32)>, name: Seq<u8>, ext: Seq<u8>) -> Option<(Seq<u8>, u32)>
    decreases l.len(),
{
    if l.len() == 0 {
        None
    } else if entry_matches(l[0].0, name, ext) {
        Some(l[0])
    } else {
        first_match(l.drop_first(), name, ext)
    }
}

/// The first free slot from `i` on.
pub open spec fn free_slot(img: Seq<u8>, slots: Seq<u32>, i: int) -> Option<u32>
    decreases slots.len() - i,
{
    if i >= slots.len() {
        None
    } else if entry_free(record_at(img, slots[i] as int)) {
        Some(slots[i])
    } else {
        free_slot(img, slots, i + 1)
    }
}

/// The first slot from `i` on whose entry has a name, before any never used.
pub open spec fn named_slot(img: Seq<u8>, slots: Seq<u32>, name: Seq<u8>, ext: Seq<u8>, i: int) -> Option<
    u32,
>
    decreases slots.len() - i,
{
    if i >= slots.len() || record_at(img, slots[i] as int)[0] == 0x00 {
        None
    } else if record_at(img, slots[i] as int)[0] != 0xe5 && entry_matches(
        record_at(img, slots[i] as int), name, ext,
    ) {
        Some(slots[i])
    } else {
        named_slot(img, slots, name, ext, i + 1)
    }
}

/// The disk and the removed record after the entry with a name was marked deleted.
pub open spec fn removed(img: Seq<u8>, slots: Seq<u32>, name: Seq<u8>, ext: Seq<u8>) -> (
    Seq<u8>,
    Option<Seq<u8>>,
) {
    match named_slot(img, slots, name, ext, 0) {
        Some(off) => {
            let r = record_at(img, off as int);
            (spliced(img, off as int, r.update(0, 0xe5)), Some(r))
        },
        None => (img, None),
    }
}

/// The position of the last byte of a kind.
pub open spec fn last_index(s: Seq<u8>, b: u8) -> Option<int>
    decreases s.len(),
{
    if s.len() == 0 {
        None
    } else if s.last() == b {
        Some(s.len() - 1)
    } else {
        last_index(s.drop_last(), b)
    }
}

/// A name split at its last dot.
pub open spec fn name_parts(name: Seq<u8>) -> (Seq<u8>, Seq<u8>) {
    match last_index(name, 0x2e) {
        Some(i) => (name.subrange(0, i), name.subrange(i + 1, name.len() as int)),
        None => (name, Seq::empty()),
    }
}

/// The first `n` bytes, padded with spaces.
pub open spec fn padded(s: Seq<u8>, n: nat) -> Seq<u8> {
    Seq::new(n, |i: int| if i < s.len() { s[i] } else { 0x20u8 })
}

/// The first `n` bytes in upper case, padded with spaces.
pub open spec fn padded_upper(s: Seq<u8>, n: nat) -> Seq<u8> {
    Seq::new(n, |i: int| if i < s.len() { upper(s[i]) } else { 0x20u8 })
}

fn last_dot(name: &[u8]) -> (r: Option<usize>)
    ensures
        r == (match last_index(name@, 0x2e) { Some(i) => Some(i as usize), None => None }),
        r matches Some(i) ==> i < name@.len() && last_index(name@, 0x2e) == Some(i as int),
{
    let mut i: usize = name.len();
    assert(name@.subrange(0, i as int) =~= name@);
    while i > 0
        invariant
            i <= name@.len(),
            last_index(name@, 0x2e) == last_index(name@.subrange(0, i as int), 0x2e),
        decreases i,
    {
        i -= 1;
        let ghost s = name@.subrange(0, i + 1);
        assert(s.drop_last() =~= name@.subrange(0, i as int));
        assert(s.last() == name@[i as int]);
        if name[i] == 0x2e {
            return Some(i);
        }
    }
    None
}

/// The two parts of a short name, padded; in upper case if `fold`.
fn short_name(name: &[u8], fold: bool) -> (r: ([u8; 8], [u8; 3]))
    ensures
        ({
            let (base, ext) = name_parts(name@);
            &&& r.0@ == (if fold { padded_upper(base, 8) } else { padded(base, 8) })
            &&& r.1@ == (if fold { padded_upper(ext, 3) } else { padded(ext, 3) })
        }),
{
    let n: usize = name.len();
    let dot: Option<usize> = last_dot(name);
    let (base_end, ext_start): (usize, usize) = match dot {
        Some(i) => (i, i + 1),
        None => (name.len(), name.len()),
    };
    let ghost (base, extension) = name_parts(name@);
    assert(base =~= name@.subrange(0, base_end as int));
    assert(extension =~= name@.subrange(ext_start as int, name@.len() as int));
    let mut short: [u8; 8] = [0x20u8; 8];
    let mut i: usize = 0;
    while i < 8 && i < base_end
        invariant
            i <= 8,
            i <= base_end <= name@.len(),
            base == name@.subrange(0, base_end as int),
            forall|k: int| 0 <= k < i ==> #[trigger] short@[k] == (if fold {
                upper(base[k])
            } else {
                base[k]
            }),
            forall|k: int| i <= k < 8 ==> #[trigger] short@[k] == 0x20u8,
        decreases 8 - i,
    {
        short[i] = if fold { to_upper(name[i]) } else { name[i] };
        i += 1;
    }
    let mut short_ext: [u8; 3] = [0x20u8; 3];
    let mut j: usize = 0;
    let ext_len: usize = name.len() - ext_start;
    while j < 3 && j < ext_len
        invariant
            j <= 3,
            j <= ext_len,
            ext_len == name@.len() - ext_start,
            ext_start <= name@.len() == n,
            extension == name@.subrange(ext_start as int, name@.len() as int),
            forall|k: int| 0 <= k < j ==> #[trigger] short_ext@[k] == (if fold {
                upper(extension[k])
            } else {
                extension[k]
            }),
            forall|k: int| j <= k < 3 ==> #[trigger] short_ext@[k] == 0x20u8,
        decreases 3 - j,
    {
        short_ext[j] = if fold { to_upper(name[ext_start + j]) } else { name[ext_start + j] };
        j += 1;
    }
    assert(short@ =~= (if fold { padded_upper(base, 8) } else { padded(base, 8) }));
    assert(short_ext@ =~= (if fold { padded_upper(extension, 3) } else { padded(extension, 3) }));
    (short, short_ext)
}

/// A file name in 8.3 form: upper case, padded with spaces.
pub fn parse_short_name(name: &[u8]) -> (r: ([u8; 8], [u8; 3]))
    ensures
        r.0@ == padded_upper(name_parts(name@).0, 8),
        r.1@ == padded_upper(name_parts(name@).1, 3),
{
    short_name(name, true)
}

pub enum DirectoryType {
    Root(RootDirectory),
    Subdir(DirEntry),
}

pub struct Directory {
    pub dir_type: DirectoryType,
    pub entries_fetched: bool,
    /// The names of the entries, each closed by a zero byte.
    pub entries: Vec<u8>,
}

pub enum Entity {
    Dir(Directory),
    File(File),
}

/// What the record in a slot stands for.
pub open spec fn entity_of(e: Option<Entity>, found: Option<(Seq<u8>, u32)>) -> bool {
    match (e, found) {
        (None, None) => true,
        (Some(Entity::Dir(d)), Some((r, _))) => entry_is_dir(r) && d.names_nothing_yet()
            && (d.dir_type matches DirectoryType::Subdir(e) && e@ == r),
        (Some(Entity::File(f)), Some((r, off))) => !entry_is_dir(r) && f.dir_entry@ == r
            && f.dir_entry_disk_offset == off && f.cluster_cache@.len() == 0,
        _ => false,
    }
}

impl Directory {
    pub open spec fn names_nothing_yet(&self) -> bool {
        !self.entries_fetched && self.entries@.len() == 0
    }

    pub fn dir_type(&self) -> (r: &DirectoryType)
        ensures
            *r == self.dir_type,
    {
        &self.dir_type
    }

    /// The modification time in seconds since 1980; 0 for the root directory.
    pub fn get_modification_time(&self) -> (r: u32)
        requires
            self.dir_type matches DirectoryType::Subdir(e) ==> entry_date_valid(e@),
        ensures
            r == (match self.dir_type {
                DirectoryType::Root(_) => 0,
                DirectoryType::Subdir(e) => entry_modified(e@),
            }),
    {
        match &self.dir_type {
            DirectoryType::Root(_) => 0,
            DirectoryType::Subdir(entry) => entry.get_modification_timestamp(),
        }
    }

    pub fn from_dir_entry(dir_entry: DirEntry) -> (r: Self)
        ensures
            r.dir_type == DirectoryType::Subdir(dir_entry),
            r.names_nothing_yet(),
    {
        Directory { dir_type: DirectoryType::Subdir(dir_entry), entries_fetched: false, entries: Vec::new() }
    }

    pub fn from_root_dir(root: RootDirectory) -> (r: Self)
        ensures
            r.dir_type == DirectoryType::Root(root),
            r.names_nothing_yet(),
    {
        Directory { dir_type: DirectoryType::Root(root), entries_fetched: false, entries: Vec::new() }
    }
}

/// The names of a listing, each closed by a zero byte.
pub open spec fn names_of(l: Seq<(Seq<u8>, u32)>) -> Seq<u8>
    decreases l.len(),
{
    if l.len() == 0 {
        Seq::empty()
    } else {
        names_of(l.drop_last()) + entry_full_name(l.last().0) + seq![0u8]
    }
}

/// The entity for a found entry.
fn entity(entry: DirEntry, offset: u32) -> (r: Entity)
    ensures
        entity_of(Some(r), Some((entry@, offset))),
{
    if entry.is_directory() {
        Entity::Dir(Directory::from_dir_entry(entry))
    } else {
        Entity::File(File::from_dir_entry(entry, offset))
    }
}

/// A list of entries with the offsets of their slots, as a value.
pub open spec fn listing_view(v: Seq<(DirEntry, u32)>) -> Seq<(Seq<u8>, u32)> {
    Seq::new(v.len(), |i: int| (v[i].0@, v[i].1))
}

fn find_in(listing: &Vec<(DirEntry, u32)>, name: &[u8; 8], ext: &[u8; 3]) -> (r: Option<Entity>)
    ensures
        entity_of(r, first_match(listing_view(listing@), name@, ext@)),
{
    let ghost all = listing_view(listing@);
    let mut i: usize = 0;
    assert(all.subrange(0, all.len() as int) =~= all);
    while i < listing.len()
        invariant
            i <= listing@.len(),
            all == listing_view(listing@),
            first_match(all, name@, ext@) == first_match(
                all.subrange(i as int, all.len() as int), name@, ext@,
            ),
        decreases listing@.len() - i,
    {
        let ghost rest = all.subrange(i as int, all.len() as int);
        assert(rest[0] == all[i as int]);
        assert(rest.drop_first() =~= all.subrange(i + 1, all.len() as int));
        if listing[i].0.matches_name(name, ext) {
            return Some(entity(listing[i].0, listing[i].1));
        }
        i += 1;
    }
    None
}

/// Write a record into the first free slot, if there is one.
fn write_in_slots<D: DiskIO>(slots: &Vec<u32>, entry: &DirEntry, disk: &mut DiskAccess<D>) -> (r: Option<
    u32,
>)
    requires
        slots_on_disk(slots@, old(disk).image().len() as int),
    ensures
        r == free_slot(old(disk).image(), slots@, 0),
        final(disk).image() == (match r {
            Some(off) => spliced(old(disk).image(), off as int, entry@),
            None => old(disk).image(),
        }),
        r matches Some(off) ==> off + 32 <= old(disk).image().len(),
{
    let mut i: usize = 0;
    while i < slots.len()
        invariant
            i <= slots@.len(),
            disk.image() == old(disk).image(),
            slots_on_disk(slots@, disk.image().len() as int),
            free_slot(disk.image(), slots@, 0) == free_slot(disk.image(), slots@, i as int),
        decreases slots@.len() - i,
    {
        let offset: u32 = slots[i];
        let slot: DirEntry = disk.read_struct_from_disk(offset);
        if slot.is_empty() {
            disk.write_struct_to_disk(offset, entry);
            return Some(offset);
        }
        i += 1;
    }
    None
}

/// Mark the entry with a name as deleted; returns the entry as it was.
fn remove_from_slots<D: DiskIO>(
    slots: &Vec<u32>, filename: &[u8; 8], ext: &[u8; 3], disk: &mut DiskAccess<D>,
) -> (r: Option<DirEntry>)
    requires
        slots_on_disk(slots@, old(disk).image().len() as int),
    ensures
        final(disk).image() == removed(old(disk).image(), slots@, filename@, ext@).0,
        (match r { Some(e) => Some(e@), None => None }) == removed(
            old(disk).image(), slots@, filename@, ext@,
        ).1,
{
    let mut i: usize = 0;
    while i < slots.len()
        invariant
            i <= slots@.len(),
            disk.image() == old(disk).image(),
            slots_on_disk(slots@, disk.image().len() as int),
            named_slot(disk.image(), slots@, filename@, ext@, 0) == named_slot(
                disk.image(), slots@, filename@, ext@, i as int,
            ),
        decreases slots@.len() - i,
    {
        let offset: u32 = slots[i];
        let mut entry: DirEntry = disk.read_struct_from_disk(offset);
        if entry.raw[0] == 0x00 {
            return None;
        }
        if entry.raw[0] != 0xe5 {
            if entry.matches_name(filename, ext) {
                let found: DirEntry = entry;
                entry.mark_deleted();
                disk.write_struct_to_disk(offset, &entry);
                return Some(found);
            }
        }
        i += 1;
    }
    None
}

/// A new entry with a name, stamped with the current time.
fn new_entry(
    filename: &[u8; 8], ext: &[u8; 3], attributes: u8, first_cluster: u16, timestamp: u32,
) -> (r: DirEntry)
    ensures
        exists|d: FileDate, t: FileTime| #[trigger] decoded(timestamp, d, t)
            && r@ == fresh_entry(filename@, ext@, attributes, first_cluster, d, t),
{
    let mut entry: DirEntry = DirEntry::new();
    entry.set_filename(filename, ext);
    entry.set_attributes(attributes);
    entry.set_first_cluster(first_cluster);
    let (fat_date, fat_time): (FileDate, FileTime) = decode_timestamp(timestamp);
    entry.set_stamps(fat_date, fat_time);
    assert(decoded(timestamp, fat_date, fat_time));
    entry
}

pub struct RootDirectory {
    pub first_sector: u32,
    pub max_entries: u32,
}

/// Walks the root directory: the slot it is at, with the entry read from it.
pub struct RootDirectoryIter {
    pub dir_offset: u32,
    pub current_index: u32,
    pub max_index: u32,
    pub current: DirEntry,
}

impl RootDirectory {
    /// The directory lies on a disk of `len` bytes.
    pub open spec fn wf(&self, len: int) -> bool {
        self.first_sector * 512 + self.max_entries * 32 <= len <= u32::MAX
    }

    pub open spec fn slots(&self) -> Seq<u32> {
        Seq::new(self.max_entries as nat, |i: int| (self.first_sector * 512 + i * 32) as u32)
    }

    pub fn new(first_sector: u32, max_entries: u32) -> (r: Self)
        ensures
            r == (RootDirectory { first_sector, max_entries }),
    {
        RootDirectory { first_sector, max_entries }
    }

    /// Start at the first slot.
    pub fn iter<D: DiskIO>(&self, disk: &mut DiskAccess<D>) -> (r: RootDirectoryIter)
        requires
            self.wf(old(disk).image().len() as int),
        ensures
            r.wf(old(disk).image()),
            r.root() == *self,
            r.current_index == 0,
            final(disk).image() == old(disk).image(),
    {
        let dir_offset: u32 = self.first_sector * 512;
        let current: DirEntry = if self.max_entries > 0 {
            disk.read_struct_from_disk(dir_offset)
        } else {
            DirEntry::new()
        };
        RootDirectoryIter { dir_offset, current_index: 0, max_index: self.max_entries, current }
    }

    fn collect_slots(&self) -> (r: Vec<u32>)
        requires
            exists|len: int| self.wf(len),
        ensures
            r@ == self.slots(),
    {
        let mut slots: Vec<u32> = Vec::new();
        let mut i: u32 = 0;
        while i < self.max_entries
            invariant
                i <= self.max_entries,
                self.first_sector * 512 + self.max_entries * 32 <= u32::MAX,
                slots@ =~= self.slots().subrange(0, i as int),
            decreases self.max_entries - i,
        {
            slots.push(self.first_sector * 512 + i * 32);
            i += 1;
        }
        assert(slots@ =~= self.slots());
        slots
    }

    /// The entries of the directory, each with the offset of its slot.
    pub fn entries<D: DiskIO>(&self, disk: &mut DiskAccess<D>) -> (r: Vec<(DirEntry, u32)>)
        requires
            self.wf(old(disk).image().len() as int),
        ensures
            listing_view(r@) == root_listing(old(disk).image(), self.slots(), 0),
            final(disk).image() == old(disk).image(),
    {
        let ghost img = disk.image();
        let mut it: RootDirectoryIter = self.iter(disk);
        let mut found: Vec<(DirEntry, u32)> = Vec::new();
        let mut done: bool = false;
        assert(listing_view(found@) =~= Seq::empty());
        while !done
            invariant
                disk.image() == img,
                it.wf(img),
                it.root() == *self,
                done ==> listing_view(found@) == root_listing(img, self.slots(), 0),
                !done ==> listing_view(found@) + it.rest(img) =~= root_listing(img, self.slots(), 0),
            decreases it.max_index - it.current_index, (if done { 0nat } else { 1nat }),
        {
            let ghost before = listing_view(found@);
            match it.next(disk) {
                Some(e) => {
                    found.push(e);
                    assert(listing_view(found@) =~= before.push((e.0@, e.1)));
                }
                None => {
                    done = true;
                }
            }
        }
        found
    }

    /// Write an entry into the first free slot. Returns the offset of the slot.
    pub fn write_entry<D: DiskIO>(&self, entry: &DirEntry, disk: &mut DiskAccess<D>) -> (r: Option<u32>)
        requires
            self.wf(old(disk).image().len() as int),
        ensures
            r == free_slot(old(disk).image(), self.slots(), 0),
            final(disk).image() == (match r {
                Some(off) => spliced(old(disk).image(), off as int, entry@),
                None => old(disk).image(),
            }),
    {
        let slots: Vec<u32> = self.collect_slots();
        write_in_slots(&slots, entry, disk)
    }

    /// Add a new entry in the first free slot, stamped with `timestamp`. Returns
    /// the offset of the slot.
    pub fn add_entry<D: DiskIO>(
        &self, filename: &[u8; 8], ext: &[u8; 3], attributes: u8, first_cluster: u16,
        disk: &mut DiskAccess<D>, timestamp: u32,
    ) -> (r: Option<u32>)
        requires
            self.wf(old(disk).image().len() as int),
        ensures
            r == free_slot(old(disk).image(), self.slots(), 0),
            r.is_none() ==> final(disk).image() == old(disk).image(),
            r matches Some(off) ==> exists|d: FileDate, t: FileTime| #[trigger] decoded(timestamp, d, t)
                && final(disk).image() == spliced(
                    old(disk).image(), off as int,
                    fresh_entry(filename@, ext@, attributes, first_cluster, d, t),
                ),
    {
        let entry: DirEntry = new_entry(filename, ext, attributes, first_cluster, timestamp);
        self.write_entry(&entry, disk)
    }

    /// Mark the entry with a name as deleted. Returns the entry as it was.
    pub fn remove_entry<D: DiskIO>(
        &self, filename: &[u8; 8], ext: &[u8; 3], disk: &mut DiskAccess<D>,
    ) -> (r: Option<DirEntry>)
        requires
            self.wf(old(disk).image().len() as int),
        ensures
            final(disk).image() == removed(old(disk).image(), self.slots(), filename@, ext@).0,
            (match r { Some(e) => Some(e@), None => None }) == removed(
                old(disk).image(), self.slots(), filename@, ext@,
            ).1,
    {
        let slots: Vec<u32> = self.collect_slots();
        remove_from_slots(&slots, filename, ext, disk)
    }

    /// The file or directory with a name.
    pub fn find_entry<D: DiskIO>(&self, name: &[u8], disk: &mut DiskAccess<D>) -> (r: Option<Entity>)
        requires
            self.wf(old(disk).image().len() as int),
        ensures
            entity_of(r, self.found(old(disk).image(), name@)),
            final(disk).image() == old(disk).image(),
    {
        let (short, ext): ([u8; 8], [u8; 3]) = short_name(name, false);
        let listing: Vec<(DirEntry, u32)> = self.entries(disk);
        find_in(&listing, &short, &ext)
    }

    /// The entry that a name finds. The name is not folded to upper case, but
    /// entries match in either case.
    pub open spec fn found(&self, img: Seq<u8>, name: Seq<u8>) -> Option<(Seq<u8>, u32)> {
        let (base, ext) = name_parts(name);
        first_match(root_listing(img, self.slots(), 0), padded(base, 8), padded(ext, 3))
    }
}

impl RootDirectoryIter {
    /// The directory that is walked.
    pub open spec fn root(&self) -> RootDirectory {
        RootDirectory {
            first_sector: (self.dir_offset as int / 512) as u32,
            max_entries: self.max_index,
        }
    }

    /// The walk is at one of the slots, where there are any, and has read its entry.
    pub open spec fn wf(&self, img: Seq<u8>) -> bool {
        &&& self.dir_offset as int % 512 == 0
        &&& self.root().wf(img.len() as int)
        &&& self.max_index == 0 ==> self.current_index == 0
        &&& self.max_index > 0 ==> self.current_index < self.max_index && self.current@ == record_at(
            img, self.root().slots()[self.current_index as int] as int,
        )
    }

    /// The entries still to come.
    pub open spec fn rest(&self, img: Seq<u8>) -> Seq<(Seq<u8>, u32)> {
        root_listing(img, self.root().slots(), self.current_index as int)
    }

    /// The next listed entry with the offset of its slot.
    pub fn next<D: DiskIO>(&mut self, disk: &mut DiskAccess<D>) -> (r: Option<(DirEntry, u32)>)
        requires
            old(self).wf(old(disk).image()),
        ensures
            final(disk).image() == old(disk).image(),
            final(self).wf(old(disk).image()),
            final(self).root() == old(self).root(),
            match r {
                Some(e) => old(self).rest(old(disk).image()) == seq![(e.0@, e.1)] + final(self).rest(
                    old(disk).image(),
                ) && final(self).current_index == old(self).current_index + 1,
                None => old(self).rest(old(disk).image()).len() == 0 && *final(self) == *old(self),
            },
    {
        if self.current.is_empty() {
            return None;
        }
        if self.current_index + 1 >= self.max_index {
            return None;
        }
        let entry: DirEntry = self.current;
        let entry_offset: u32 = self.dir_offset + self.current_index * 32;
        self.current_index += 1;
        let offset: u32 = self.dir_offset + self.current_index * 32;
        self.current = disk.read_struct_from_disk(offset);
        Some((entry, entry_offset))
    }
}

/// The slots of a subdirectory: those of its clusters, one after the other.
pub open spec fn cluster_slots(t: AllocationTable, clusters: Seq<u32>) -> Seq<u32>
    decreases clusters.len(),
{
    if clusters.len() == 0 {
        Seq::empty()
    } else {
        cluster_slots(t, clusters.drop_last()) + Seq::new(
            (t.cluster_bytes as int / 32) as nat,
            |i: int| (t.location(clusters.last() as int) + i * 32) as u32,
        )
    }
}

/// The record is one of the two that name a directory and its parent.
pub open spec fn is_dot_entry(r: Seq<u8>) -> bool {
    entry_name(r) == seq![0x2eu8] || entry_name(r) == seq![0x2eu8, 0x2eu8]
}

proof fn lemma_cluster_slots_on_disk(t: AllocationTable, clusters: Seq<u32>, len: int)
    requires
        t.wf(len),
        forall|i: int| 0 <= i < clusters.len() ==> (#[trigger] clusters[i]) < t.entry_count,
    ensures
        slots_on_disk(cluster_slots(t, clusters), len),
    decreases clusters.len(),
{
    if clusters.len() > 0 {
        lemma_cluster_slots_on_disk(t, clusters.drop_last(), len);
        lemma_cluster_on_disk(t, len, clusters.last() as int);
        let a = cluster_slots(t, clusters.drop_last());
        let all = cluster_slots(t, clusters);
        assert forall|i: int| 0 <= i < all.len() implies (#[trigger] all[i]) + 32 <= len by {
            if i < a.len() {
                assert(all[i] == a[i]);
            }
        }
    }
}

/// A subdirectory, stored in a chain of clusters.
pub struct SubDirectory {
    pub first_cluster: u32,
}

/// Walks a subdirectory: its slots, and the number of the next one.
pub struct SubdirIter {
    pub slots: Vec<u32>,
    pub next_slot: usize,
}

impl SubdirIter {
    pub open spec fn wf(&self, img: Seq<u8>) -> bool {
        self.next_slot <= self.slots@.len() && slots_on_disk(self.slots@, img.len() as int)
    }

    /// The entries still to come.
    pub open spec fn rest(&self, img: Seq<u8>) -> Seq<(Seq<u8>, u32)> {
        sub_listing(img, self.slots@, self.next_slot as int)
    }

    /// The next listed entry with the offset of its slot.
    pub fn next<D: DiskIO>(&mut self, disk: &mut DiskAccess<D>) -> (r: Option<(DirEntry, u32)>)
        requires
            old(self).wf(old(disk).image()),
        ensures
            final(disk).image() == old(disk).image(),
            final(self).wf(old(disk).image()),
            final(self).slots == old(self).slots,
            final(self).next_slot >= old(self).next_slot,
            match r {
                Some(e) => old(self).rest(old(disk).image()) == seq![(e.0@, e.1)] + final(self).rest(
                    old(disk).image(),
                ) && final(self).next_slot > old(self).next_slot,
                None => old(self).rest(old(disk).image()).len() == 0,
            },
    {
        let ghost img = disk.image();
        while self.next_slot < self.slots.len()
            invariant
                self.wf(img),
                disk.image() == img,
                img == old(disk).image(),
                self.slots == old(self).slots,
                self.next_slot >= old(self).next_slot,
                self.rest(img) == old(self).rest(img),
            decreases self.slots@.len() - self.next_slot,
        {
            let offset: u32 = self.slots[self.next_slot];
            let entry: DirEntry = disk.read_struct_from_disk(offset);
            if entry.raw[0] == 0x00 {
                return None;
            }
            self.next_slot += 1;
            if entry.raw[0] != 0xe5 {
                return Some((entry, offset));
            }
        }
        None
    }
}

/// Put zeros over `len` bytes of the disk.
fn write_zeros<D: DiskIO>(start: u32, len: u32, disk: &mut DiskAccess<D>)
    requires
        start + len <= old(disk).image().len() <= u32::MAX,
    ensures
        final(disk).image() == spliced(
            old(disk).image(), start as int, Seq::new(len as nat, |i: int| 0u8),
        ),
{
    let ghost img = disk.image();
    let mut off: u32 = 0;
    assert(disk.image() =~= spliced(img, start as int, Seq::new(0, |i: int| 0u8)));
    while off < len
        invariant
            off <= len,
            img.len() <= u32::MAX,
            start + len <= img.len(),
            disk.image() == spliced(img, start as int, Seq::new(off as nat, |i: int| 0u8)),
        decreases len - off,
    {
        let n: u32 = if len - off <= 512 { len - off } else { 512 };
        let zeros: Vec<u8> = vec![0u8; n as usize];
        disk.write_bytes_to_disk(start + off, zeros.as_slice());
        off += n;
        assert(disk.image() =~= spliced(img, start as int, Seq::new(off as nat, |i: int| 0u8)));
    }
}

impl SubDirectory {
    /// The directory starts at a cluster and its chain ends.
    pub open spec fn wf(&self, t: AllocationTable, img: Seq<u8>) -> bool {
        &&& t.wf(img.len() as int)
        &&& self.first_cluster < t.entry_count
        &&& chain_ends(img, t, self.first_cluster as int)
    }

    pub open spec fn slots(&self, t: AllocationTable, img: Seq<u8>) -> Seq<u32> {
        cluster_slots(t, chain(img, t, self.first_cluster as int))
    }

    /// The entries of the directory.
    pub open spec fn listing(&self, t: AllocationTable, img: Seq<u8>) -> Seq<(Seq<u8>, u32)> {
        sub_listing(img, self.slots(t, img), 0)
    }

    pub fn new(first_cluster: u32) -> (r: Self)
        ensures
            r.first_cluster == first_cluster,
    {
        SubDirectory { first_cluster }
    }

    /// The slots of the directory, and its last cluster.
    fn collect_slots<D: DiskIO>(&self, table: &AllocationTable, disk: &mut DiskAccess<D>) -> (r: (
        Vec<u32>,
        u32,
    ))
        requires
            self.wf(*table, old(disk).image()),
        ensures
            r.0@ == self.slots(*table, old(disk).image()),
            slots_on_disk(r.0@, old(disk).image().len() as int),
            r.1 == chain(old(disk).image(), *table, self.first_cluster as int).last(),
            r.1 < table.entry_count,
            next_cluster(old(disk).image(), *table, r.1 as int).is_none(),
            table.holds(self.first_cluster as int) ==> table.holds(r.1 as int),
            final(disk).image() == old(disk).image(),
    {
        let ghost img = disk.image();
        let ghost t = *table;
        let ghost whole = chain(img, t, self.first_cluster as int);
        let mut slots: Vec<u32> = Vec::new();
        let mut cluster: u32 = self.first_cluster;
        let per: u32 = table.bytes_per_cluster() / 32;
        let ghost mut before: Seq<u32> = Seq::empty();
        let ghost mut fuel: nat = choose|n: nat| #[trigger]
            crate::fat::table::ends_within(img, t, self.first_cluster as int, n);
        proof {
            lemma_chain_holds(img, t, self.first_cluster as int, fuel);
            assert(before + whole =~= whole);
        }
        let mut done: bool = false;
        while !done
            invariant
                t == *table,
                t.wf(img.len() as int),
                disk.image() == img,
                per == t.cluster_bytes as int / 32,
                cluster < t.entry_count,
                t.holds(self.first_cluster as int) ==> t.holds(cluster as int),
                !done ==> chain_ends(img, t, cluster as int),
                !done ==> crate::fat::table::ends_within(img, t, cluster as int, fuel),
                !done ==> before + chain(img, t, cluster as int) =~= whole,
                !done ==> slots@ == cluster_slots(t, before),
                done ==> slots@ == cluster_slots(t, whole) && cluster == whole.last() && whole.len() > 0
                    && next_cluster(img, t, cluster as int).is_none(),
            decreases (if done { 0 } else { fuel + 1 }),
        {
            proof {
                lemma_chain_unfold(img, t, cluster as int);
                lemma_cluster_on_disk(t, img.len() as int, cluster as int);
            }
            let loc: u32 = table.get_cluster_location(cluster);
            let ghost start = slots@;
            let mut i: u32 = 0;
            while i < per
                invariant
                    i <= per,
                    per == t.cluster_bytes as int / 32,
                    loc == t.location(cluster as int),
                    loc + t.cluster_bytes <= u32::MAX,
                    slots@ =~= start + Seq::new(
                        i as nat, |k: int| (t.location(cluster as int) + k * 32) as u32,
                    ),
                decreases per - i,
            {
                slots.push(loc + i * 32);
                i += 1;
            }
            let ghost next_before = before.push(cluster);
            proof {
                assert(next_before.drop_last() =~= before);
                assert(slots@ =~= cluster_slots(t, next_before));
            }
            match table.get_next_cluster(cluster, disk) {
                Some(next) => {
                    proof {
                        assert(before + (seq![cluster] + chain(img, t, next as int))
                            =~= next_before + chain(img, t, next as int));
                        before = next_before;
                        fuel = (fuel - 1) as nat;
                    }
                    cluster = next;
                }
                None => {
                    proof {
                        assert(whole =~= next_before);
                    }
                    done = true;
                }
            }
        }
        proof {
            let n = choose|n: nat| #[trigger]
                crate::fat::table::ends_within(img, t, self.first_cluster as int, n);
            lemma_chain_holds(img, t, self.first_cluster as int, n);
            lemma_cluster_slots_on_disk(t, whole, img.len() as int);
        }
        (slots, cluster)
    }

    /// Start at the first slot.
    pub fn iter<D: DiskIO>(&self, table: &AllocationTable, disk: &mut DiskAccess<D>) -> (r: SubdirIter)
        requires
            self.wf(*table, old(disk).image()),
        ensures
            r.wf(old(disk).image()),
            r.slots@ == self.slots(*table, old(disk).image()),
            r.next_slot == 0,
            final(disk).image() == old(disk).image(),
    {
        let (slots, _last): (Vec<u32>, u32) = self.collect_slots(table, disk);
        SubdirIter { slots, next_slot: 0 }
    }

    /// The entries of the directory, each with the offset of its slot.
    pub fn entries<D: DiskIO>(&self, table: &AllocationTable, disk: &mut DiskAccess<D>) -> (r: Vec<
        (DirEntry, u32),
    >)
        requires
            self.wf(*table, old(disk).image()),
        ensures
            listing_view(r@) == self.listing(*table, old(disk).image()),
            final(disk).image() == old(disk).image(),
    {
        let ghost img = disk.image();
        let mut it: SubdirIter = self.iter(table, disk);
        let mut found: Vec<(DirEntry, u32)> = Vec::new();
        let mut done: bool = false;
        assert(listing_view(found@) =~= Seq::empty());
        while !done
            invariant
                disk.image() == img,
                it.wf(img),
                it.slots@ == self.slots(*table, img),
                done ==> listing_view(found@) == self.listing(*table, img),
                !done ==> listing_view(found@) + it.rest(img) =~= self.listing(*table, img),
            decreases it.slots@.len() - it.next_slot, (if done { 0nat } else { 1nat }),
        {
            let ghost before = listing_view(found@);
            match it.next(disk) {
                Some(e) => {
                    found.push(e);
                    assert(listing_view(found@) =~= before.push((e.0@, e.1)));
                }
                None => {
                    done = true;
                }
            }
        }
        found
    }

    /// The entry that a name finds, folded to upper case.
    pub open spec fn found(&self, t: AllocationTable, img: Seq<u8>, name: Seq<u8>) -> Option<
        (Seq<u8>, u32),
    > {
        let (base, ext) = name_parts(name);
        first_match(self.listing(t, img), padded_upper(base, 8), padded_upper(ext, 3))
    }

    /// The file or directory with a name.
    pub fn find_entry<D: DiskIO>(
        &self, name: &[u8], table: &AllocationTable, disk: &mut DiskAccess<D>,
    ) -> (r: Option<Entity>)
        requires
            self.wf(*table, old(disk).image()),
        ensures
            entity_of(r, self.found(*table, old(disk).image(), name@)),
            final(disk).image() == old(disk).image(),
    {
        let (short, ext): ([u8; 8], [u8; 3]) = parse_short_name(name);
        let listing: Vec<(DirEntry, u32)> = self.entries(table, disk);
        find_in(&listing, &short, &ext)
    }

    /// The disk and the slot after a record was written: in the first free slot, or
    /// else in the first slot of a new cluster, cleared and linked to the chain.
    pub open spec fn written(&self, t: AllocationTable, img: Seq<u8>, r: Seq<u8>) -> (Seq<u8>, Option<u32>) {
        match free_slot(img, self.slots(t, img), 0) {
            Some(off) => (spliced(img, off as int, r), Some(off)),
            None => match free_cluster(img, t) {
                None => (img, None),
                Some(c) => {
                    let last = chain(img, t, self.first_cluster as int).last();
                    let linked = fat_set(
                        fat_set(img, t, c as int, 0xfff), t, last as int, c as int,
                    );
                    let loc = t.location(c as int);
                    let cleared = spliced(
                        linked, loc, Seq::new(t.cluster_bytes as nat, |i: int| 0u8),
                    );
                    (spliced(cleared, loc, r), Some(loc as u32))
                },
            },
        }
    }

    /// Write an entry into the first free slot; the directory grows if it has none.
    pub fn write_entry<D: DiskIO>(
        &self, entry: &DirEntry, table: &AllocationTable, disk: &mut DiskAccess<D>,
    ) -> (r: Option<u32>)
        requires
            self.wf(*table, old(disk).image()),
            table.holds(self.first_cluster as int),
        ensures
            (final(disk).image(), r) == self.written(*table, old(disk).image(), entry@),
            final(disk).image().len() == old(disk).image().len(),
    {
        let ghost img = disk.image();
        let (slots, last): (Vec<u32>, u32) = self.collect_slots(table, disk);
        let slot: Option<u32> = write_in_slots(&slots, entry, disk);
        if slot.is_some() {
            return slot;
        }
        let new_cluster: u32 = match table.allocate_cluster(disk) {
            Some(c) => c,
            None => {
                return None;
            }
        };
        table.set_cluster_entry(last, new_cluster, disk);
        proof { lemma_cluster_on_disk(*table, img.len() as int, new_cluster as int); }
        let loc: u32 = table.get_cluster_location(new_cluster);
        write_zeros(loc, table.bytes_per_cluster(), disk);
        disk.write_struct_to_disk(loc, entry);
        Some(loc)
    }

    /// Add a new entry, stamped with `timestamp`. Returns the offset of its slot.
    pub fn add_entry<D: DiskIO>(
        &self, filename: &[u8; 8], ext: &[u8; 3], attributes: u8, first_cluster: u16,
        table: &AllocationTable, disk: &mut DiskAccess<D>, timestamp: u32,
    ) -> (r: Option<u32>)
        requires
            self.wf(*table, old(disk).image()),
            table.holds(self.first_cluster as int),
        ensures
            exists|d: FileDate, t: FileTime| #[trigger] decoded(timestamp, d, t)
                && (final(disk).image(), r) == self.written(
                *table, old(disk).image(),
                fresh_entry(filename@, ext@, attributes, first_cluster, d, t),
            ),
            final(disk).image().len() == old(disk).image().len(),
    {
        let entry: DirEntry = new_entry(filename, ext, attributes, first_cluster, timestamp);
        self.write_entry(&entry, table, disk)
    }

    /// Mark the entry with a name as deleted. Returns the entry as it was.
    pub fn remove_entry<D: DiskIO>(
        &self, filename: &[u8; 8], ext: &[u8; 3], table: &AllocationTable, disk: &mut DiskAccess<D>,
    ) -> (r: Option<DirEntry>)
        requires
            self.wf(*table, old(disk).image()),
        ensures
            final(disk).image() == removed(
                old(disk).image(), self.slots(*table, old(disk).image()), filename@, ext@,
            ).0,
            (match r { Some(e) => Some(e@), None => None }) == removed(
                old(disk).image(), self.slots(*table, old(disk).image()), filename@, ext@,
            ).1,
    {
        let (slots, _last): (Vec<u32>, u32) = self.collect_slots(table, disk);
        remove_from_slots(&slots, filename, ext, disk)
    }
}

/// Whether a subdirectory holds nothing but the entries for itself and its parent.
pub fn is_subdir_empty<D: DiskIO>(
    first_cluster: u32, table: &AllocationTable, disk: &mut DiskAccess<D>,
) -> (r: bool)
    requires
        (SubDirectory { first_cluster }).wf(*table, old(disk).image()),
    ensures
        r == (forall|i: int| 0 <= i < (SubDirectory { first_cluster }).listing(
            *table, old(disk).image(),
        ).len() ==> is_dot_entry(
            (#[trigger] (SubDirectory { first_cluster }).listing(*table, old(disk).image())[i]).0,
        )),
        final(disk).image() == old(disk).image(),
{
    let dir: SubDirectory = SubDirectory::new(first_cluster);
    let listing: Vec<(DirEntry, u32)> = dir.entries(table, disk);
    let ghost all = dir.listing(*table, old(disk).image());
    let mut i: usize = 0;
    while i < listing.len()
        invariant
            i <= listing@.len(),
            listing_view(listing@) == all,
            disk.image() == old(disk).image(),
            all == (SubDirectory { first_cluster }).listing(*table, old(disk).image()),
            forall|k: int| 0 <= k < i ==> is_dot_entry((#[trigger] all[k]).0),
        decreases listing@.len() - i,
    {
        let name: Vec<u8> = listing[i].0.get_filename();
        assert(all[i as int].0 == listing@[i as int].0@);
        let dot: bool = (name.len() == 1 && name[0] == 0x2e) || (name.len() == 2 && name[0] == 0x2e
            && name[1] == 0x2e);
        proof {
            if dot {
                assert(name@ =~= seq![0x2eu8] || name@ =~= seq![0x2eu8, 0x2eu8]);
            } else if name@ == seq![0x2eu8] || name@ == seq![0x2eu8, 0x2eu8] {
                assert(false);
            }
        }
        if !dot {
            assert(!is_dot_entry(all[i as int].0));
            return false;
        }
        i += 1;
    }
    true
}

/// The root directory or a subdirectory.
pub enum AnyDirectory {
    Root(RootDirectory),
    Sub(SubDirectory),
}

impl AnyDirectory {
    pub open spec fn wf(&self, t: AllocationTable, img: Seq<u8>) -> bool {
        match self {
            AnyDirectory::Root(root) => root.wf(img.len() as int),
            AnyDirectory::Sub(sub) => sub.wf(t, img),
        }
    }

    /// The entry that a name finds.
    pub open spec fn found(&self, t: AllocationTable, img: Seq<u8>, name: Seq<u8>) -> Option<
        (Seq<u8>, u32),
    > {
        match self {
            AnyDirectory::Root(root) => root.found(img, name),
            AnyDirectory::Sub(sub) => sub.found(t, img, name),
        }
    }

    /// The disk and the slot after a record was written.
    pub open spec fn written(&self, t: AllocationTable, img: Seq<u8>, r: Seq<u8>) -> (Seq<u8>, Option<u32>) {
        match self {
            AnyDirectory::Root(root) => match free_slot(img, root.slots(), 0) {
                Some(off) => (spliced(img, off as int, r), Some(off)),
                None => (img, None),
            },
            AnyDirectory::Sub(sub) => sub.written(t, img, r),
        }
    }

    pub open spec fn slots(&self, t: AllocationTable, img: Seq<u8>) -> Seq<u32> {
        match self {
            AnyDirectory::Root(root) => root.slots(),
            AnyDirectory::Sub(sub) => sub.slots(t, img),
        }
    }

    /// A subdirectory can only grow from a cluster of the table.
    pub open spec fn can_grow(&self, t: AllocationTable) -> bool {
        match self {
            AnyDirectory::Root(_) => true,
            AnyDirectory::Sub(sub) => t.holds(sub.first_cluster as int),
        }
    }

    pub fn first_cluster(&self) -> (r: u32)
        ensures
            r == (match self { AnyDirectory::Root(_) => 0, AnyDirectory::Sub(s) => s.first_cluster }),
    {
        match self {
            AnyDirectory::Root(_) => 0,
            AnyDirectory::Sub(sub) => sub.first_cluster,
        }
    }

    pub fn find_entry<D: DiskIO>(
        &self, name: &[u8], table: &AllocationTable, disk: &mut DiskAccess<D>,
    ) -> (r: Option<Entity>)
        requires
            self.wf(*table, old(disk).image()),
        ensures
            entity_of(r, self.found(*table, old(disk).image(), name@)),
            final(disk).image() == old(disk).image(),
    {
        match self {
            AnyDirectory::Root(root) => root.find_entry(name, disk),
            AnyDirectory::Sub(sub) => sub.find_entry(name, table, disk),
        }
    }

    pub fn add_entry<D: DiskIO>(
        &self, filename: &[u8; 8], ext: &[u8; 3], attributes: u8, first_cluster: u16,
        table: &AllocationTable, disk: &mut DiskAccess<D>, timestamp: u32,
    ) -> (r: Option<u32>)
        requires
            self.wf(*table, old(disk).image()),
            self.can_grow(*table),
        ensures
            exists|d: FileDate, t: FileTime| #[trigger] decoded(timestamp, d, t)
                && (final(disk).image(), r) == self.written(
                *table, old(disk).image(),
                fresh_entry(filename@, ext@, attributes, first_cluster, d, t),
            ),
    {
        let entry: DirEntry = new_entry(filename, ext, attributes, first_cluster, timestamp);
        self.write_entry(&entry, table, disk)
    }

    pub fn remove_entry<D: DiskIO>(
        &self, filename: &[u8; 8], ext: &[u8; 3], table: &AllocationTable, disk: &mut DiskAccess<D>,
    ) -> (r: Option<DirEntry>)
        requires
            self.wf(*table, old(disk).image()),
        ensures
            final(disk).image() == removed(
                old(disk).image(), self.slots(*table, old(disk).image()), filename@, ext@,
            ).0,
            (match r { Some(e) => Some(e@), None => None }) == removed(
                old(disk).image(), self.slots(*table, old(disk).image()), filename@, ext@,
            ).1,
    {
        match self {
            AnyDirectory::Root(root) => root.remove_entry(filename, ext, disk),
            AnyDirectory::Sub(sub) => sub.remove_entry(filename, ext, table, disk),
        }
    }

    pub fn write_entry<D: DiskIO>(
        &self, entry: &DirEntry, table: &AllocationTable, disk: &mut DiskAccess<D>,
    ) -> (r: Option<u32>)
        requires
            self.wf(*table, old(disk).image()),
            self.can_grow(*table),
        ensures
            (final(disk).image(), r) == self.written(*table, old(disk).image(), entry@),
    {
        match self {
            AnyDirectory::Root(root) => root.write_entry(entry, disk),
            AnyDirectory::Sub(sub) => sub.write_entry(entry, table, disk),
        }
    }
}

/// The names of a list of entries, each closed by a zero byte.
fn collect_names(listing: &Vec<(DirEntry, u32)>) -> (r: Vec<u8>)
    ensures
        r@ == names_of(listing_view(listing@)),
{
    let ghost all = listing_view(listing@);
    let mut names: Vec<u8> = Vec::new();
    let mut i: usize = 0;
    while i < listing.len()
        invariant
            i <= listing@.len(),
            all == listing_view(listing@),
            names@ == names_of(all.subrange(0, i as int)),
        decreases listing@.len() - i,
    {
        let name: Vec<u8> = listing[i].0.get_full_name();
        proof {
            let s = all.subrange(0, i + 1);
            assert(s.drop_last() =~= all.subrange(0, i as int));
            assert(s.last() == all[i as int]);
        }
        push_bytes(&mut names, name.as_slice());
        names.push(0);
        i += 1;
        assert(names@ =~= names_of(all.subrange(0, i as int)));
    }
    assert(all.subrange(0, all.len() as int) =~= all);
    names
}

impl Directory {
    /// The names that reading the directory gives, once fetched.
    pub open spec fn names(&self, t: AllocationTable, img: Seq<u8>) -> Seq<u8> {
        if self.entries_fetched {
            self.entries@
        } else {
            self.entries@ + match self.dir_type {
                DirectoryType::Root(root) => names_of(root_listing(img, root.slots(), 0)),
                DirectoryType::Subdir(e) => names_of(
                    (SubDirectory { first_cluster: entry_cluster(e@) as u32 }).listing(t, img),
                ),
            }
        }
    }

    pub open spec fn wf(&self, t: AllocationTable, img: Seq<u8>) -> bool {
        !self.entries_fetched ==> match self.dir_type {
            DirectoryType::Root(root) => root.wf(img.len() as int),
            DirectoryType::Subdir(e) => (SubDirectory {
                first_cluster: entry_cluster(e@) as u32,
            }).wf(t, img),
        }
    }

    /// Read the names of the entries from `offset` on into `buffer`. They are
    /// fetched from the disk at the first read.
    pub fn read<D: DiskIO>(
        &mut self, buffer: &mut Vec<u8>, offset: u32, table: AllocationTable, disk: &mut DiskAccess<D>,
    ) -> (r: u32)
        requires
            old(self).wf(table, old(disk).image()),
            offset <= old(self).names(table, old(disk).image()).len(),
            old(buffer)@.len() <= u32::MAX,
        ensures
            final(disk).image() == old(disk).image(),
            final(self).dir_type == old(self).dir_type,
            final(self).entries_fetched,
            final(self).entries@ == old(self).names(table, old(disk).image()),
            ({
                let names = old(self).names(table, old(disk).image());
                let left = names.len() - offset;
                let n = if left <= old(buffer)@.len() { left } else { old(buffer)@.len() as int };
                &&& r == n
                &&& final(buffer)@ == names.subrange(offset as int, offset + n) + old(
                    buffer,
                )@.subrange(n, old(buffer)@.len() as int)
            }),
    {
        let ghost img = disk.image();
        if !self.entries_fetched {
            let listing: Vec<(DirEntry, u32)> = match &self.dir_type {
                DirectoryType::Root(root) => root.entries(disk),
                DirectoryType::Subdir(entry) => {
                    let subdir: SubDirectory = SubDirectory::new(entry.first_file_cluster() as u32);
                    subdir.entries(&table, disk)
                }
            };
            let names: Vec<u8> = collect_names(&listing);
            push_bytes(&mut self.entries, names.as_slice());
            self.entries_fetched = true;
        }
        let ghost names = self.entries@;
        let remaining: usize = self.entries.len() - offset as usize;
        let n: usize = if remaining <= buffer.len() { remaining } else { buffer.len() };
        let total: usize = self.entries.len();
        let mut i: usize = 0;
        while i < n
            invariant
                i <= n,
                offset + n <= total,
                total == self.entries@.len(),
                n <= buffer@.len() == old(buffer)@.len(),
                forall|k: int| 0 <= k < i ==> #[trigger] buffer@[k] == self.entries@[offset + k],
                forall|k: int| i <= k < buffer@.len() ==> #[trigger] buffer@[k] == old(buffer)@[k],
            decreases n - i,
        {
            buffer[i] = self.entries[offset as usize + i];
            i += 1;
        }
        assert(buffer@ =~= names.subrange(offset as int, offset + n) + old(buffer)@.subrange(
            n as int, old(buffer)@.len() as int,
        ));
        n as u32
    }
}

} // verus!
