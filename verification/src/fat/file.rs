//! Files: a directory entry and a chain of clusters.
use vstd::arithmetic::div_mod::{lemma_fundamental_div_mod, lemma_fundamental_div_mod_converse};
use vstd::prelude::*;

use crate::bits::lesser;
use crate::bytes::spliced;
use crate::fat::disk::{DiskAccess, DiskIO};
use crate::fat::entry::{
    entry_cluster, entry_date_valid, entry_ext, entry_modified, entry_name, entry_size, with_u16,
    with_u32, DirEntry,
};
use crate::fat::table::{
    chain, chain_ends, chain_has_no_repeats, chain_in_use, clusters_do_not_overlap, ends_within,
    fat_get, fat_set, free_cluster, lemma_chain_holds, lemma_chain_unfold, lemma_cluster_on_disk,
    lemma_free_holds, lemma_same_chain, lemma_same_entries, lemma_same_free, lemma_same_table_via, linked,
    linking_extends_the_chain, next_cluster, same_table, table_end, table_entries_are_independent,
    AllocationTable, CHAIN_END,
};
use crate::text::push_bytes;

verus! {

pub struct File {
    pub dir_entry: DirEntry,
    pub dir_entry_disk_offset: u32,
    /// The clusters of the file, if they were looked up.
    pub cluster_cache: Vec<u32>,
}

/// Where byte `i` of a file lies on the disk.
pub open spec fn file_pos(t: AllocationTable, clusters: Seq<u32>, i: int) -> int {
    t.location(clusters[i / (t.cluster_bytes as int)] as int) + i % (t.cluster_bytes as int)
}

/// How many bytes a read at `at` into a buffer of `len` bytes gives.
pub open spec fn bytes_read(t: AllocationTable, clusters: Seq<u32>, size: int, at: int, len: int) -> int {
    let end = lesser(size, capacity(t, clusters));
    if at < end { lesser(len, end - at) } else { 0 }
}

/// The entry of a file after a write at `at` of `len` bytes, of which `n` found room. A file without
/// clusters begins at `first` from now on.
pub open spec fn entry_after_write(
    entry: Seq<u8>, first: u32, at: int, len: int, n: int,
) -> Seq<u8> {
    let begun = if entry_cluster(entry) != 0 { entry } else { with_u16(entry, 26, first as u16) };
    if n == len && at + n > entry_size(entry) { with_u32(begun, 28, (at + n) as u32) } else { begun }
}

/// How many bytes fit in the clusters of a file.
pub open spec fn capacity(t: AllocationTable, clusters: Seq<u32>) -> int {
    clusters.len() * t.cluster_bytes
}

/// `n` bytes of a file from byte `at` on.
pub open spec fn file_bytes(img: Seq<u8>, t: AllocationTable, clusters: Seq<u32>, at: int, n: int) -> Seq<u8> {
    Seq::new(n as nat, |k: int| img[file_pos(t, clusters, at + k)])
}

/// The disk and the clusters after free clusters were linked to a file, until it
/// has `need` clusters or none is free.
pub open spec fn grown(img: Seq<u8>, t: AllocationTable, clusters: Seq<u32>, need: int) -> (
    Seq<u8>,
    Seq<u32>,
)
    decreases need - clusters.len(),
{
    if clusters.len() >= need {
        (img, clusters)
    } else {
        match free_cluster(img, t) {
            None => (img, clusters),
            Some(c) => grown(
                linked(img, t, clusters.last() as int, c as int), t, clusters.push(c), need,
            ),
        }
    }
}

/// Every cluster is one of the table.
pub open spec fn all_below(t: AllocationTable, clusters: Seq<u32>) -> bool {
    forall|i: int| 0 <= i < clusters.len() ==> (#[trigger] clusters[i]) < t.entry_count
}

/// Bytes of one cluster are neighbours.
proof fn lemma_pos_step(t: AllocationTable, clusters: Seq<u32>, i: int, j: int)
    requires
        0 < t.cluster_bytes,
        0 <= i,
        0 <= j,
        i % (t.cluster_bytes as int) + j < t.cluster_bytes,
    ensures
        (i + j) / (t.cluster_bytes as int) == i / (t.cluster_bytes as int),
        (i + j) % (t.cluster_bytes as int) == i % (t.cluster_bytes as int) + j,
        file_pos(t, clusters, i + j) == file_pos(t, clusters, i) + j,
{
    let b = t.cluster_bytes as int;
    lemma_fundamental_div_mod(i, b);
    let q = i / b;
    let r = i % b + j;
    assert(i + j == q * b + r) by (nonlinear_arith)
        requires i == b * q + i % b, r == i % b + j;
    lemma_fundamental_div_mod_converse(i + j, b, q, r);
}

/// A byte within the capacity of a file lies on the disk, in one of its clusters.
proof fn lemma_pos_on_disk(t: AllocationTable, clusters: Seq<u32>, len: int, i: int)
    requires
        t.wf(len),
        all_below(t, clusters),
        0 <= i < capacity(t, clusters),
    ensures
        0 <= i / (t.cluster_bytes as int) < clusters.len(),
        0 <= i % (t.cluster_bytes as int) < t.cluster_bytes,
        t.data_offset <= file_pos(t, clusters, i) < len,
        t.location(clusters[i / (t.cluster_bytes as int)] as int) + t.cluster_bytes <= len,
{
    let b = t.cluster_bytes as int;
    lemma_fundamental_div_mod(i, b);
    let q = i / b;
    assert(0 <= q < clusters.len()) by (nonlinear_arith)
        requires i == b * q + i % b, 0 <= i < clusters.len() * b, 0 <= i % b < b, b > 0;
    assert(clusters[q] < t.entry_count);
    lemma_cluster_on_disk(t, len, clusters[q] as int);
}

/// Within the capacity, quotients say which cluster.
proof fn lemma_quotient_bound(t: AllocationTable, n: int, i: int)
    requires
        0 < t.cluster_bytes,
        0 <= i,
        0 <= n,
    ensures
        (i / (t.cluster_bytes as int) < n) == (i < n * t.cluster_bytes),
        i / (t.cluster_bytes as int) >= 0,
        0 <= i % (t.cluster_bytes as int) < t.cluster_bytes,
{
    let b = t.cluster_bytes as int;
    lemma_fundamental_div_mod(i, b);
    let q = i / b;
    assert((q < n) == (i < n * b)) by (nonlinear_arith)
        requires i == b * q + i % b, 0 <= i % b < b, b > 0;
    assert(q >= 0) by (nonlinear_arith) requires i == b * q + i % b, 0 <= i, 0 <= i % b < b, b > 0;
}

/// Different bytes of a file lie in different places, if no cluster repeats.
proof fn lemma_pos_injective(t: AllocationTable, clusters: Seq<u32>, i: int, r: int, q: int)
    requires
        0 < t.cluster_bytes,
        clusters.no_duplicates(),
        forall|k: int| 0 <= k < clusters.len() ==> t.holds((#[trigger] clusters[k]) as int),
        0 <= i < capacity(t, clusters),
        0 <= r < clusters.len(),
        0 <= q < t.cluster_bytes,
        file_pos(t, clusters, i) == t.location(clusters[r] as int) + q,
    ensures
        i / (t.cluster_bytes as int) == r,
        i % (t.cluster_bytes as int) == q,
{
    let b = t.cluster_bytes as int;
    lemma_quotient_bound(t, clusters.len() as int, i);
    let s = i / b;
    assert(0 <= s < clusters.len());
    if s != r {
        assert(clusters[s] != clusters[r]);
        if clusters[s] < clusters[r] {
            clusters_do_not_overlap(t, clusters[s] as int, clusters[r] as int);
        } else {
            clusters_do_not_overlap(t, clusters[r] as int, clusters[s] as int);
        }
    }
}

/// What growing does to a chain: it stays a chain, and its old clusters stay first.
pub proof fn lemma_grown(img: Seq<u8>, t: AllocationTable, first: u32, clusters: Seq<u32>, need: int)
    requires
        t.wf(img.len() as int),
        chain_ends(img, t, first as int),
        clusters == chain(img, t, first as int),
        chain_in_use(img, t, clusters),
    ensures
        ({
            let (after, all) = grown(img, t, clusters, need);
            &&& after.len() == img.len()
            &&& chain_ends(after, t, first as int)
            &&& all == chain(after, t, first as int)
            &&& chain_in_use(after, t, all)
            &&& all.len() >= clusters.len()
            &&& all.subrange(0, clusters.len() as int) == clusters
            &&& all.len() < need ==> free_cluster(after, t).is_none()
            &&& all.len() <= need || all == clusters
            &&& forall|i: int| 0 <= i < img.len() && !(t.table_offset <= i < table_end(t)) ==>
                #[trigger] after[i] == img[i]
            &&& forall|i: int| clusters.len() <= i < all.len() ==> fat_get(
                img, t, (#[trigger] all[i]) as int,
            ) == 0
        }),
    decreases need - clusters.len(),
{
    lemma_chain_unfold(img, t, first as int);
    assert(clusters.subrange(0, clusters.len() as int) =~= clusters);
    if clusters.len() < need {
        match free_cluster(img, t) {
            None => {},
            Some(c) => {
                lemma_free_holds(img, t, 2);
                linking_extends_the_chain(img, t, first, c);
                let last = clusters.last();
                assert(t.holds(clusters[clusters.len() - 1] as int));
                let mid = fat_set(img, t, c as int, 0xfff);
                let next = linked(img, t, last as int, c as int);
                table_entries_are_independent(img, t, c as int, 0xfff, last as int);
                table_entries_are_independent(mid, t, last as int, c as int, c as int);
                lemma_grown(next, t, first, clusters.push(c), need);
                let (after, all) = grown(img, t, clusters, need);
                assert(all.subrange(0, clusters.len() as int) =~= clusters) by {
                    assert(all.subrange(0, (clusters.len() + 1) as int) == clusters.push(c));
                    assert forall|k: int| 0 <= k < clusters.len() implies all[k] == clusters[k] by {
                        assert(all.subrange(0, (clusters.len() + 1) as int)[k] == clusters.push(c)[k]);
                    }
                }
                assert forall|i: int| clusters.len() <= i < all.len() implies fat_get(
                    img, t, (#[trigger] all[i]) as int,
                ) == 0 by {
                    assert(all.subrange(0, (clusters.len() + 1) as int)[clusters.len() as int] == c);
                    if i > clusters.len() {
                        let y = all[i] as int;
                        assert(fat_get(next, t, y) == 0);
                        assert(t.holds(y));
                        table_entries_are_independent(img, t, c as int, 0xfff, y);
                        table_entries_are_independent(mid, t, last as int, c as int, y);
                    }
                }
            },
        }
    }
}

/// Growing depends on the table alone.
proof fn lemma_grown_same(a: Seq<u8>, b: Seq<u8>, t: AllocationTable, clusters: Seq<u32>, need: int)
    requires
        t.wf(a.len() as int),
        same_table(a, b, t),
        clusters.len() > 0,
        forall|i: int| 0 <= i < clusters.len() ==> t.holds((#[trigger] clusters[i]) as int),
    ensures
        same_table(grown(a, t, clusters, need).0, grown(b, t, clusters, need).0, t),
        grown(a, t, clusters, need).1 == grown(b, t, clusters, need).1,
    decreases need - clusters.len(),
{
    if clusters.len() < need {
        lemma_same_free(a, b, t, 2);
        match free_cluster(a, t) {
            None => {},
            Some(c) => {
                lemma_free_holds(a, t, 2);
                let last = clusters[clusters.len() - 1] as int;
                assert(t.holds(last));
                lemma_same_set(a, b, t, c as int, 0xfff);
                let (a1, b1) = (fat_set(a, t, c as int, 0xfff), fat_set(b, t, c as int, 0xfff));
                lemma_same_set(a1, b1, t, last, c as int);
                lemma_grown_same(
                    linked(a, t, last, c as int), linked(b, t, last, c as int), t, clusters.push(c),
                    need,
                );
            },
        }
    }
}

proof fn lemma_same_set(a: Seq<u8>, b: Seq<u8>, t: AllocationTable, c: int, v: int)
    requires
        same_table(a, b, t),
        t.wf(a.len() as int),
        t.holds(c),
    ensures
        same_table(fat_set(a, t, c, v), fat_set(b, t, c, v), t),
        fat_set(a, t, c, v).len() == a.len(),
{
    crate::fat::table::lemma_entry_in_table(t, c);
}

/// How many clusters a write of `len` bytes at `at` needs.
pub open spec fn clusters_needed(t: AllocationTable, at: int, len: int) -> int {
    if len == 0 { 0 } else { (at + len - 1) / (t.cluster_bytes as int) + 1 }
}

impl File {
    /// The clusters of the file: those looked up, or the chain of its entry.
    pub open spec fn clusters(&self, t: AllocationTable, img: Seq<u8>) -> Seq<u32> {
        if self.cluster_cache@.len() > 0 {
            self.cluster_cache@
        } else {
            chain(img, t, entry_cluster(self.dir_entry@) as int)
        }
    }

    pub open spec fn size(&self) -> u32 {
        entry_size(self.dir_entry@)
    }

    pub open spec fn first(&self) -> u16 {
        entry_cluster(self.dir_entry@)
    }

    /// The file can be read: its clusters lie on the disk and its chain ends.
    pub open spec fn readable(&self, t: AllocationTable, img: Seq<u8>) -> bool {
        &&& t.wf(img.len() as int)
        &&& all_below(t, self.cluster_cache@)
        &&& self.cluster_cache@.len() == 0 ==> self.first() < t.entry_count && chain_ends(
            img, t, self.first() as int,
        )
    }

    /// The file has no clusters yet, or its clusters are the chain of its entry.
    pub open spec fn wf(&self, t: AllocationTable, img: Seq<u8>) -> bool {
        &&& t.wf(img.len() as int)
        &&& self.first() == 0 ==> self.cluster_cache@.len() == 0
        &&& self.first() != 0 ==> {
            &&& t.holds(self.first() as int)
            &&& chain_ends(img, t, self.first() as int)
            &&& chain_in_use(img, t, chain(img, t, self.first() as int))
            &&& self.cluster_cache@.len() > 0 ==> self.cluster_cache@ == chain(
                img, t, self.first() as int,
            )
        }
    }

    pub fn from_dir_entry(dir_entry: DirEntry, disk_offset: u32) -> (r: Self)
        ensures
            r.dir_entry == dir_entry,
            r.dir_entry_disk_offset == disk_offset,
            r.cluster_cache@.len() == 0,
    {
        File { dir_entry, dir_entry_disk_offset: disk_offset, cluster_cache: Vec::new() }
    }

    /// Name, dot and extension.
    pub fn file_name(&self) -> (r: Vec<u8>)
        ensures
            r@ == entry_name(self.dir_entry@) + seq![0x2eu8] + entry_ext(self.dir_entry@),
    {
        let mut name: Vec<u8> = self.dir_entry.get_filename();
        name.push(0x2e);
        push_bytes(&mut name, self.dir_entry.get_ext().as_slice());
        assert(name@ =~= entry_name(self.dir_entry@) + seq![0x2eu8] + entry_ext(self.dir_entry@));
        name
    }

    pub fn byte_size(&self) -> (r: u32)
        ensures
            r == self.size(),
    {
        self.dir_entry.byte_size()
    }

    pub fn first_cluster(&self) -> (r: u16)
        ensures
            r == self.first(),
    {
        self.dir_entry.first_file_cluster()
    }

    pub fn dir_entry_disk_offset(&self) -> (r: u32)
        ensures
            r == self.dir_entry_disk_offset,
    {
        self.dir_entry_disk_offset
    }

    pub fn dir_entry_mut(&mut self) -> (r: &mut DirEntry)
        ensures
            *r == old(self).dir_entry,
            *final(self) == (File { dir_entry: *final(r), ..*old(self) }),
    {
        &mut self.dir_entry
    }

    /// Forget the clusters that were looked up.
    pub fn invalidate_cluster_cache(&mut self)
        ensures
            final(self).cluster_cache@.len() == 0,
            *final(self) == (File { cluster_cache: final(self).cluster_cache, ..*old(self) }),
    {
        self.cluster_cache.clear();
    }

    /// The modification time in seconds since 1980.
    pub fn get_modification_time(&self) -> (r: u32)
        requires
            entry_date_valid(self.dir_entry@),
        ensures
            r == entry_modified(self.dir_entry@),
    {
        self.dir_entry.get_modification_timestamp()
    }

    /// Look up the chain of clusters from `start_cluster` on.
    pub fn cache_cluster_chain<D: DiskIO>(
        &mut self, table: AllocationTable, start_cluster: u32, disk: &mut DiskAccess<D>,
    )
        requires
            table.wf(old(disk).image().len() as int),
            start_cluster == 0xfff || chain_ends(old(disk).image(), table, start_cluster as int),
        ensures
            final(disk).image() == old(disk).image(),
            final(self).cluster_cache@ == (if start_cluster == 0xfff {
                Seq::empty()
            } else {
                chain(old(disk).image(), table, start_cluster as int)
            }),
            *final(self) == (File { cluster_cache: final(self).cluster_cache, ..*old(self) }),
    {
        self.cluster_cache.clear();
        let ghost img = disk.image();
        let mut current: u32 = start_cluster;
        let ghost mut fuel: nat = choose|n: nat| #[trigger] ends_within(
            img, table, start_cluster as int, n,
        );
        let ghost whole = chain(img, table, start_cluster as int);
        assert(self.cluster_cache@ + whole =~= whole);
        while current != CHAIN_END
            invariant
                table.wf(img.len() as int),
                disk.image() == img,
                img == old(disk).image(),
                whole == chain(img, table, start_cluster as int),
                start_cluster != 0xfff ==> current != 0xfff,
                start_cluster == 0xfff ==> current == 0xfff && self.cluster_cache@ =~= Seq::empty(),
                current != 0xfff ==> chain_ends(img, table, current as int),
                current != 0xfff ==> ends_within(img, table, current as int, fuel),
                current != 0xfff ==> self.cluster_cache@ + chain(img, table, current as int) =~= whole,
                *self == (File { cluster_cache: self.cluster_cache, ..*old(self) }),
            decreases fuel,
        {
            proof { lemma_chain_unfold(img, table, current as int); }
            let ghost before = self.cluster_cache@;
            self.cluster_cache.push(current);
            match table.get_next_cluster(current, disk) {
                Some(next) => {
                    proof {
                        fuel = (fuel - 1) as nat;
                        assert(before + (seq![current] + chain(img, table, next as int))
                            =~= self.cluster_cache@ + chain(img, table, next as int));
                    }
                    current = next;
                }
                None => {
                    assert(self.cluster_cache@ =~= whole);
                    return;
                }
            }
        }
    }

    /// Read up to `buffer.len()` bytes of the file from `initial_offset` on.
    /// Returns how many there were.
    pub fn read<D: DiskIO>(
        &mut self, buffer: &mut Vec<u8>, initial_offset: u32, table: AllocationTable,
        disk: &mut DiskAccess<D>,
    ) -> (r: u32)
        requires
            old(self).readable(table, old(disk).image()),
            initial_offset < capacity(table, old(self).clusters(table, old(disk).image()))
                ==> initial_offset <= old(self).size(),
            old(buffer)@.len() <= u32::MAX,
        ensures
            final(disk).image() == old(disk).image(),
            final(self).cluster_cache@ == old(self).clusters(table, old(disk).image()),
            final(self).dir_entry == old(self).dir_entry,
            final(self).dir_entry_disk_offset == old(self).dir_entry_disk_offset,
            r == bytes_read(
                table, old(self).clusters(table, old(disk).image()), old(self).size() as int,
                initial_offset as int, old(buffer)@.len() as int,
            ),
            ({
                let clusters = old(self).clusters(table, old(disk).image());
                let end = lesser(old(self).size() as int, capacity(table, clusters));
                let n = if initial_offset < end {
                    lesser(old(buffer)@.len() as int, end - initial_offset)
                } else {
                    0
                };
                &&& r == n
                &&& final(buffer)@ == file_bytes(
                    old(disk).image(), table, clusters, initial_offset as int, n,
                ) + old(buffer)@.subrange(n, old(buffer)@.len() as int)
            }),
    {
        let ghost img = disk.image();
        let ghost clusters = self.clusters(table, img);
        let bpc: u32 = table.bytes_per_cluster();
        let size: u32 = self.byte_size();
        if self.cluster_cache.len() == 0 {
            let first: u32 = self.first_cluster() as u32;
            self.cache_cluster_chain(table, first, disk);
            proof {
                lemma_chain_unfold(img, table, first as int);
                let n = choose|n: nat| #[trigger] ends_within(img, table, first as int, n);
                lemma_chain_holds(img, table, first as int, n);
            }
        }
        assert(self.cluster_cache@ == clusters);
        let mut offset: u32 = initial_offset;
        let mut written: usize = 0;
        let want: usize = buffer.len();
        let ghost end = lesser(size as int, capacity(table, clusters));
        proof {
            assert(clusters.len() * bpc >= 0) by (nonlinear_arith) requires clusters.len() >= 0, bpc >= 0;
        }
        loop
            invariant
                img == old(disk).image(),
                disk.image() == img,
                table.wf(img.len() as int),
                bpc == table.cluster_bytes,
                size == old(self).size(),
                self.cluster_cache@ == clusters,
                clusters == old(self).clusters(table, img),
                all_below(table, clusters),
                *self == (File { cluster_cache: self.cluster_cache, ..*old(self) }),
                want == old(buffer)@.len() == buffer@.len(),
                want <= u32::MAX,
                offset == initial_offset + written,
                written <= want,
                end == lesser(size as int, capacity(table, clusters)),
                initial_offset < capacity(table, clusters) ==> initial_offset <= size,
                written > 0 ==> offset <= capacity(table, clusters) && offset < size && written < want,
                forall|k: int| 0 <= k < written ==> #[trigger] buffer@[k] == img[file_pos(
                    table, clusters, initial_offset + k,
                )],
                forall|k: int| written <= k < buffer@.len() ==> #[trigger] buffer@[k] == old(buffer)@[k],
            decreases want - written,
        {
            let rel: u32 = offset / bpc;
            let cluster_offset: u32 = offset % bpc;
            proof { lemma_quotient_bound(table, clusters.len() as int, offset as int); }
            if rel as usize >= self.cluster_cache.len() {
                proof {
                    assert(offset >= capacity(table, clusters));
                    assert(buffer@ =~= file_bytes(
                        img, table, clusters, initial_offset as int, written as int,
                    ) + old(buffer)@.subrange(written as int, want as int));
                }
                return written as u32;
            }
            let cluster: u32 = self.cluster_cache[rel as usize];
            proof {
                lemma_pos_on_disk(table, clusters, img.len() as int, offset as int);
                assert(clusters[rel as int] < table.entry_count);
            }
            let location: u32 = table.get_cluster_location(cluster);
            let left_in_file: u32 = size - offset;
            let left_in_cluster: u32 = bpc - cluster_offset;
            let from_disk: u32 =
                if left_in_file <= left_in_cluster { left_in_file } else { left_in_cluster };
            let room: usize = want - written;
            let m: u32 = if from_disk as usize <= room { from_disk } else { room as u32 };
            let bytes: Vec<u8> = disk.read_bytes_from_disk(location + cluster_offset, m);
            let ghost before = buffer@;
            let mut j: usize = 0;
            while j < m as usize
                invariant
                    j <= m,
                    bytes@.len() == m,
                    written + m <= want == buffer@.len(),
                    before.len() == buffer@.len(),
                    forall|k: int| 0 <= k < j ==> #[trigger] buffer@[written + k] == bytes@[k],
                    forall|k: int| 0 <= k < written ==> #[trigger] buffer@[k] == before[k],
                    forall|k: int| written + j <= k < buffer@.len() ==> #[trigger] buffer@[k] == before[k],
                decreases m - j,
            {
                buffer[written + j] = bytes[j];
                j += 1;
            }
            proof {
                let w = written as int;
                assert forall|k: int| 0 <= k < w + m implies #[trigger] buffer@[k] == img[file_pos(
                    table, clusters, initial_offset + k,
                )] by {
                    if k >= w {
                        let d = k - w;
                        assert(buffer@[w + d] == bytes@[d]);
                        lemma_pos_step(table, clusters, offset as int, d);
                        assert(initial_offset + k == offset + d);
                    } else {
                        assert(buffer@[k] == before[k]);
                    }
                }
                lemma_pos_step(table, clusters, offset as int, 0);
                if m > 0 {
                    lemma_pos_step(table, clusters, offset as int, m - 1);
                    lemma_quotient_bound(table, clusters.len() as int, offset + m - 1);
                }
            }
            written += m as usize;
            offset += m;
            if offset >= size || written >= want {
                proof {
                    assert(buffer@ =~= file_bytes(
                        img, table, clusters, initial_offset as int, written as int,
                    ) + old(buffer)@.subrange(written as int, want as int));
                }
                return written as u32;
            }
        }
    }
}

/// The byte lies in one of the clusters.
pub open spec fn in_clusters(t: AllocationTable, clusters: Seq<u32>, p: int) -> bool {
    exists|j: int| 0 <= j < clusters.len() && t.location((#[trigger] clusters[j]) as int) <= p
        < t.location(clusters[j] as int) + t.cluster_bytes
}

pub open spec fn in_table(t: AllocationTable, p: int) -> bool {
    t.table_offset <= p < table_end(t)
}

/// `now` is the disk `img` with `n` bytes of `data` written to a file from byte
/// `at` on: nothing else changed, but for the table.
pub open spec fn data_written(
    img: Seq<u8>, now: Seq<u8>, t: AllocationTable, clusters: Seq<u32>, at: int, data: Seq<u8>, n: int,
) -> bool {
    &&& now.len() == img.len()
    &&& forall|k: int| 0 <= k < n ==> now[file_pos(t, clusters, at + k)] == #[trigger] data[k]
    &&& forall|i: int| 0 <= i < capacity(t, clusters) && !(at <= i < at + n) ==> now[
        #[trigger] file_pos(t, clusters, i)] == img[file_pos(t, clusters, i)]
    &&& forall|p: int| 0 <= p < img.len() && !in_table(t, p) && !in_clusters(t, clusters, p)
        ==> #[trigger] now[p] == img[p]
}

/// Writing the next bytes of the data at the next place of the file.
proof fn lemma_write_step(
    img: Seq<u8>, before: Seq<u8>, t: AllocationTable, clusters: Seq<u32>, at: int, data: Seq<u8>,
    n: int, m: int,
)
    requires
        t.wf(img.len() as int),
        data_written(img, before, t, clusters, at, data, n),
        clusters.no_duplicates(),
        forall|k: int| 0 <= k < clusters.len() ==> t.holds((#[trigger] clusters[k]) as int),
        0 <= at,
        0 <= n,
        0 < m,
        n + m <= data.len(),
        at + n < capacity(t, clusters),
        (at + n) % (t.cluster_bytes as int) + m <= t.cluster_bytes,
    ensures
        data_written(
            img,
            spliced(before, file_pos(t, clusters, at + n), data.subrange(n, n + m)),
            t, clusters, at, data, n + m,
        ),
        same_table(
            before, spliced(before, file_pos(t, clusters, at + n), data.subrange(n, n + m)), t,
        ),
        at + n + m <= capacity(t, clusters),
        file_pos(t, clusters, at + n) + m <= img.len(),
{
    let b = t.cluster_bytes as int;
    let off = at + n;
    let pos = file_pos(t, clusters, off);
    let piece = data.subrange(n, n + m);
    let after = spliced(before, pos, piece);
    let r = off / b;
    let q = off % b;
    assert(all_below(t, clusters)) by {
        assert forall|i: int| 0 <= i < clusters.len() implies (#[trigger] clusters[i]) < t.entry_count by {
            assert(t.holds(clusters[i] as int));
        }
    }
    lemma_quotient_bound(t, clusters.len() as int, off);
    lemma_pos_on_disk(t, clusters, img.len() as int, off);
    lemma_pos_step(t, clusters, off, m - 1);
    lemma_quotient_bound(t, clusters.len() as int, off + m - 1);
    assert(t.holds(clusters[r] as int));
    lemma_cluster_on_disk(t, img.len() as int, clusters[r] as int);
    assert forall|k: int| 0 <= k < n + m implies after[file_pos(t, clusters, at + k)]
        == #[trigger] data[k] by {
        if k >= n {
            lemma_pos_step(t, clusters, off, k - n);
            assert(at + k == off + (k - n));
        } else {
            let p = file_pos(t, clusters, at + k);
            lemma_pos_on_disk(t, clusters, img.len() as int, at + k);
            if pos <= p < pos + m {
                lemma_pos_injective(t, clusters, at + k, r, p - t.location(clusters[r] as int));
                lemma_fundamental_div_mod(at + k, b);
                lemma_fundamental_div_mod(off, b);
                assert(at + k >= off);
            }
            assert(before[file_pos(t, clusters, at + k)] == data[k]);
        }
    }
    assert forall|i: int| 0 <= i < capacity(t, clusters) && !(at <= i < at + n + m) implies after[
        #[trigger] file_pos(t, clusters, i)] == img[file_pos(t, clusters, i)] by {
        let p = file_pos(t, clusters, i);
        lemma_pos_on_disk(t, clusters, img.len() as int, i);
        if pos <= p < pos + m {
            lemma_pos_injective(t, clusters, i, r, p - t.location(clusters[r] as int));
            lemma_fundamental_div_mod(i, b);
            lemma_fundamental_div_mod(off, b);
            assert(off <= i < off + m);
        }
    }
    assert forall|p: int| 0 <= p < img.len() && !in_table(t, p) && !in_clusters(t, clusters, p) implies
        #[trigger] after[p] == img[p] by {
        if pos <= p < pos + m {
            assert(t.location(clusters[r] as int) <= p < t.location(clusters[r] as int) + b);
            assert(in_clusters(t, clusters, p));
        }
        assert(before[p] == img[p]);
    }
}

/// Changes of the table do not touch the data.
proof fn lemma_table_step(
    img: Seq<u8>, before: Seq<u8>, now: Seq<u8>, t: AllocationTable, clusters: Seq<u32>, at: int,
    data: Seq<u8>, n: int,
)
    requires
        t.wf(img.len() as int),
        data_written(img, before, t, clusters, at, data, n),
        now.len() == before.len(),
        forall|i: int| 0 <= i < before.len() && !in_table(t, i) ==> #[trigger] now[i] == before[i],
        all_below(t, clusters),
        0 <= at,
        0 <= n,
        n > 0 ==> at + n <= capacity(t, clusters),
        n <= data.len(),
    ensures
        data_written(img, now, t, clusters, at, data, n),
{
    assert forall|k: int| 0 <= k < n implies now[file_pos(t, clusters, at + k)] == #[trigger] data[k] by {
        lemma_pos_on_disk(t, clusters, img.len() as int, at + k);
        assert(before[file_pos(t, clusters, at + k)] == data[k]);
    }
    assert forall|i: int| 0 <= i < capacity(t, clusters) && !(at <= i < at + n) implies now[
        #[trigger] file_pos(t, clusters, i)] == img[file_pos(t, clusters, i)] by {
        lemma_pos_on_disk(t, clusters, img.len() as int, i);
    }
}

/// A write under way: the disk at its start, the data and its place, and the table
/// and clusters it will end with.
pub struct WriteGoal {
    pub img: Seq<u8>,
    pub data: Seq<u8>,
    pub at: int,
    pub need: int,
    pub table_image: Seq<u8>,
    pub all: Seq<u32>,
}

impl WriteGoal {
    pub open spec fn wf(&self, t: AllocationTable) -> bool {
        &&& t.wf(self.img.len() as int)
        &&& self.all.no_duplicates()
        &&& all_below(t, self.all)
        &&& forall|k: int| 0 <= k < self.all.len() ==> t.holds((#[trigger] self.all[k]) as int)
        &&& 0 <= self.at
        &&& self.need == clusters_needed(t, self.at, self.data.len() as int)
    }

    /// `n` bytes are written, and the file will still end with the same clusters.
    pub open spec fn reached(&self, t: AllocationTable, f: File, now: Seq<u8>, n: int) -> bool {
        &&& f.wf(t, now)
        &&& f.first() != 0
        &&& f.cluster_cache@.len() > 0
        &&& same_table(grown(now, t, f.cluster_cache@, self.need).0, self.table_image, t)
        &&& grown(now, t, f.cluster_cache@, self.need).1 == self.all
        &&& data_written(self.img, now, t, self.all, self.at, self.data, n)
        &&& 0 <= n <= self.data.len()
        &&& n > 0 ==> self.at + n <= capacity(t, f.cluster_cache@)
    }
}

impl File {
    /// Let the file grow until it has cluster number `rel`; false if none is free.
    fn grow_to<D: DiskIO>(
        &mut self, rel: u32, table: AllocationTable, disk: &mut DiskAccess<D>,
        Ghost(goal): Ghost<WriteGoal>, Ghost(n): Ghost<int>,
    ) -> (r: bool)
        requires
            goal.wf(table),
            goal.reached(table, *old(self), old(disk).image(), n),
            rel < goal.need,
            n < goal.data.len(),
            rel == (goal.at + n) / (table.cluster_bytes as int),
        ensures
            goal.reached(table, *final(self), final(disk).image(), n),
            *final(self) == (File { cluster_cache: final(self).cluster_cache, ..*old(self) }),
            r ==> rel < final(self).cluster_cache@.len(),
            !r ==> goal.all == final(self).cluster_cache@ && same_table(
                final(disk).image(), goal.table_image, table,
            ) && goal.at + n >= capacity(table, goal.all),
    {
        let ghost first = self.first() as u32;
        while rel as usize >= self.cluster_cache.len()
            invariant
                goal.wf(table),
                goal.reached(table, *self, disk.image(), n),
                rel < goal.need,
                n < goal.data.len(),
                rel == (goal.at + n) / (table.cluster_bytes as int),
                first == self.first(),
                *self == (File { cluster_cache: self.cluster_cache, ..*old(self) }),
            decreases rel + 1 - self.cluster_cache@.len(),
        {
            let ghost now = disk.image();
            let ghost have = self.cluster_cache@;
            proof {
                lemma_quotient_bound(table, have.len() as int, goal.at + n);
                lemma_grown(now, table, first, have, goal.need);
            }
            let last: u32 = self.cluster_cache[self.cluster_cache.len() - 1];
            assert(last == have.last());
            assert(table.holds(have[have.len() - 1] as int));
            match table.allocate_cluster(disk) {
                Some(new) => {
                    let ghost mid = disk.image();
                    table.set_cluster_entry(last, new, disk);
                    self.cluster_cache.push(new);
                    proof {
                        lemma_free_holds(now, table, 2);
                        linking_extends_the_chain(now, table, first, new);
                        table_entries_are_independent(now, table, new as int, 0xfff, last as int);
                        table_entries_are_independent(mid, table, last as int, new as int, new as int);
                        lemma_capacity_monotone(table, have, goal.all);
                        lemma_capacity_monotone(table, have, self.cluster_cache@);
                        lemma_table_step(
                            goal.img, now, disk.image(), table, goal.all, goal.at, goal.data, n,
                        );
                    }
                }
                None => {
                    return false;
                }
            }
        }
        true
    }

    /// Write the next `m` bytes, which fit in cluster number `rel`.
    fn write_chunk<D: DiskIO>(
        &mut self, data: &[u8], offset: u32, written: usize, m: usize, table: AllocationTable,
        disk: &mut DiskAccess<D>, Ghost(goal): Ghost<WriteGoal>,
    )
        requires
            goal.wf(table),
            goal.reached(table, *old(self), old(disk).image(), written as int),
            goal.data == data@,
            offset == goal.at + written,
            0 < m,
            written + m <= data@.len(),
            offset as int % (table.cluster_bytes as int) + m <= table.cluster_bytes,
            offset as int / (table.cluster_bytes as int) < old(self).cluster_cache@.len(),
        ensures
            goal.reached(table, *final(self), final(disk).image(), written + m),
            *final(self) == *old(self),
    {
        let ghost now = disk.image();
        let ghost have = self.cluster_cache@;
        let ghost first = self.first() as u32;
        let total: usize = data.len();
        let bpc: u32 = table.bytes_per_cluster();
        let rel: u32 = offset / bpc;
        proof {
            lemma_grown(now, table, first, have, goal.need);
            lemma_quotient_bound(table, have.len() as int, offset as int);
            lemma_capacity_monotone(table, have, goal.all);
            assert(have[rel as int] == goal.all.subrange(0, have.len() as int)[rel as int]);
            assert(table.holds(goal.all[rel as int] as int));
            lemma_write_step(
                goal.img, now, table, goal.all, goal.at, goal.data, written as int, m as int,
            );
            lemma_pos_on_disk(table, goal.all, goal.img.len() as int, offset as int);
        }
        let cluster: u32 = self.cluster_cache[rel as usize];
        let location: u32 = table.get_cluster_location(cluster);
        disk.write_bytes_to_disk(
            location + offset % bpc, vstd::slice::slice_subrange(data, written, written + m),
        );
        proof {
            lemma_same_chain(now, disk.image(), table, first as int);
            lemma_in_use_same(now, disk.image(), table, have);
            lemma_grown_same(now, disk.image(), table, have, goal.need);
            lemma_same_table_via(
                grown(now, table, have, goal.need).0,
                grown(disk.image(), table, have, goal.need).0, goal.table_image, table,
            );
            lemma_pos_step(table, have, offset as int, m - 1);
            lemma_quotient_bound(table, have.len() as int, offset + m - 1);
        }
    }

    /// Write data to the clusters of the file, which grows as needed. Returns how
    /// many bytes found a place.
    fn write_data<D: DiskIO>(
        &mut self, data: &[u8], initial_offset: u32, table: AllocationTable, disk: &mut DiskAccess<D>,
    ) -> (r: u32)
        requires
            old(self).wf(table, old(disk).image()),
            old(self).cluster_cache@.len() > 0,
            initial_offset + data@.len() <= u32::MAX,
        ensures
            *final(self) == (File { cluster_cache: final(self).cluster_cache, ..*old(self) }),
            final(self).wf(table, final(disk).image()),
            ({
                let need = clusters_needed(table, initial_offset as int, data@.len() as int);
                let (gimg, all) = grown(old(disk).image(), table, old(self).cluster_cache@, need);
                &&& final(self).cluster_cache@ == all
                &&& same_table(final(disk).image(), gimg, table)
                &&& r == bytes_placed(table, all, initial_offset as int, data@.len() as int)
                &&& data_written(
                    old(disk).image(), final(disk).image(), table, all, initial_offset as int, data@,
                    r as int,
                )
            }),
    {
        let ghost img = disk.image();
        let ghost first = self.first() as u32;
        let ghost start = self.cluster_cache@;
        let ghost need = clusters_needed(table, initial_offset as int, data@.len() as int);
        let ghost (gimg, all) = grown(img, table, start, need);
        let ghost goal = WriteGoal {
            img, data: data@, at: initial_offset as int, need, table_image: gimg, all,
        };
        let bpc: u32 = table.bytes_per_cluster();
        let total: usize = data.len();
        proof {
            lemma_grown(img, table, first, start, need);
            chain_has_no_repeats(gimg, table, first);
            assert forall|i: int| 0 <= i < all.len() implies (#[trigger] all[i]) < table.entry_count by {
                assert(table.holds(all[i] as int));
            }
        }
        let mut offset: u32 = initial_offset;
        let mut written: usize = 0;
        while written < total
            invariant
                goal.wf(table),
                goal.reached(table, *self, disk.image(), written as int),
                goal == (WriteGoal {
                    img: old(disk).image(), data: data@, at: initial_offset as int, need,
                    table_image: gimg, all,
                }),
                need == clusters_needed(table, initial_offset as int, data@.len() as int),
                (gimg, all) == grown(old(disk).image(), table, old(self).cluster_cache@, need),
                bpc == table.cluster_bytes,
                total == data@.len(),
                initial_offset + total <= u32::MAX,
                written <= total,
                offset == initial_offset + written,
                first == self.first(),
                *self == (File { cluster_cache: self.cluster_cache, ..*old(self) }),
            decreases total - written,
        {
            let rel: u32 = offset / bpc;
            let cluster_offset: u32 = offset % bpc;
            proof {
                lemma_need_covers(table, initial_offset as int, total as int, offset as int);
            }
            if !self.grow_to(rel, table, disk, Ghost(goal), Ghost(written as int)) {
                return written as u32;
            }
            let left_in_cluster: u32 = bpc - cluster_offset;
            let left: usize = total - written;
            let m: usize =
                if left <= left_in_cluster as usize { left } else { left_in_cluster as usize };
            self.write_chunk(data, offset, written, m, table, disk, Ghost(goal));
            written += m;
            offset += m as u32;
        }
        proof {
            lemma_grown(disk.image(), table, first, self.cluster_cache@, need);
            if total > 0 {
                lemma_all_placed(
                    table, self.cluster_cache@, all, initial_offset as int, total as int, need,
                );
            }
        }
        written as u32
    }
}

/// The clusters that a write starts with: those of the file, or a first one that
/// is free. None if there is none.
pub open spec fn write_start(f: File, t: AllocationTable, img: Seq<u8>) -> Option<(Seq<u8>, Seq<u32>)> {
    if f.first() != 0 {
        Some((img, chain(img, t, f.first() as int)))
    } else {
        match free_cluster(img, t) {
            Some(c) => Some((fat_set(img, t, c as int, 0xfff), seq![c])),
            None => None,
        }
    }
}

/// The slot of the directory entry lies apart from the table, the clusters of the
/// file and all free clusters.
pub open spec fn slot_apart(t: AllocationTable, img: Seq<u8>, clusters: Seq<u32>, off: int) -> bool {
    &&& off + 32 <= img.len()
    &&& off + 32 <= t.table_offset || table_end(t) <= off
    &&& forall|c: u32| t.holds(c as int) && (clusters.contains(c) || fat_get(img, t, c as int) == 0)
        ==> off + 32 <= #[trigger] t.location(c as int) || t.location(c as int) + t.cluster_bytes <= off
}

impl File {
    /// Write data to the file from `initial_offset` on; the file grows as needed.
    /// Returns how many bytes found a place. The directory entry on disk is brought
    /// up to date if all of them did and the file became longer.
    #[verifier::rlimit(40)]
    pub fn write<D: DiskIO>(
        &mut self, data: &[u8], initial_offset: u32, table: AllocationTable, disk: &mut DiskAccess<D>,
    ) -> (r: u32)
        requires
            old(self).wf(table, old(disk).image()),
            initial_offset + data@.len() <= u32::MAX,
            slot_apart(
                table, old(disk).image(),
                if old(self).first() != 0 {
                    chain(old(disk).image(), table, old(self).first() as int)
                } else {
                    Seq::empty()
                },
                old(self).dir_entry_disk_offset as int,
            ),
        ensures
            final(self).wf(table, final(disk).image()),
            final(self).dir_entry_disk_offset == old(self).dir_entry_disk_offset,
            write_start(*old(self), table, old(disk).image()).is_none() ==> r == 0
                && *final(self) == *old(self) && final(disk).image() == old(disk).image(),
            write_start(*old(self), table, old(disk).image()) matches Some((img0, clusters0)) ==> {
                let img = old(disk).image();
                let now = final(disk).image();
                let at = initial_offset as int;
                let off = old(self).dir_entry_disk_offset as int;
                let (gimg, all) = grown(
                    img0, table, clusters0, clusters_needed(table, at, data@.len() as int),
                );
                let entry = if old(self).first() != 0 {
                    old(self).dir_entry@
                } else {
                    with_u16(old(self).dir_entry@, 26, clusters0[0] as u16)
                };
                let longer = r == data@.len() && at + r > old(self).size();
                &&& r == bytes_placed(table, all, at, data@.len() as int)
                &&& final(self).cluster_cache@ == all
                &&& final(self).dir_entry@ == entry_after_write(
                    old(self).dir_entry@, clusters0[0], at, data@.len() as int, r as int,
                )
                &&& final(self).dir_entry@ == (if longer {
                    with_u32(entry, 28, (at + r) as u32)
                } else {
                    entry
                })
                &&& now.len() == img.len()
                &&& same_table(now, gimg, table)
                &&& file_bytes(now, table, all, at, r as int) == data@.subrange(0, r as int)
                &&& forall|i: int| 0 <= i < capacity(table, all) && !(at <= i < at + r) ==> now[
                    #[trigger] file_pos(table, all, i)] == img[file_pos(table, all, i)]
                &&& now.subrange(off, off + 32) == (if longer {
                    final(self).dir_entry@
                } else {
                    img.subrange(off, off + 32)
                })
                &&& forall|p: int| 0 <= p < img.len() && !in_table(table, p) && !in_clusters(
                    table, all, p,
                ) && !(off <= p < off + 32) ==> #[trigger] now[p] == img[p]
            },
    {
        let ghost img = disk.image();
        let ghost off = self.dir_entry_disk_offset as int;
        let ghost chain0 = if self.first() != 0 {
            chain(img, table, self.first() as int)
        } else {
            Seq::empty()
        };
        if self.cluster_cache.len() == 0 && self.first_cluster() != 0 {
            let first: u32 = self.first_cluster() as u32;
            self.cache_cluster_chain(table, first, disk);
            proof { lemma_chain_unfold(img, table, first as int); }
        }
        if self.cluster_cache.len() == 0 {
            match table.allocate_cluster(disk) {
                Some(cluster) => {
                    self.dir_entry.set_first_cluster(cluster as u16);
                    self.cluster_cache.push(cluster);
                    proof {
                        lemma_free_holds(img, table, 2);
                        table_entries_are_independent(
                            img, table, cluster as int, 0xfff, cluster as int,
                        );
                        assert(next_cluster(disk.image(), table, cluster as int).is_none());
                        assert(ends_within(disk.image(), table, cluster as int, 0));
                        lemma_chain_unfold(disk.image(), table, cluster as int);
                        assert(self.cluster_cache@ =~= seq![cluster]);
                    }
                }
                None => {
                    return 0;
                }
            }
        }
        let ghost img0 = disk.image();
        let ghost clusters0 = self.cluster_cache@;
        let ghost need = clusters_needed(table, initial_offset as int, data@.len() as int);
        let ghost (gimg, all) = grown(img0, table, clusters0, need);
        let ghost first = self.first() as u32;
        proof {
            lemma_grown(img0, table, first, clusters0, need);
            chain_has_no_repeats(gimg, table, first);
            lemma_clusters_apart(img, img0, table, chain0, clusters0, all, off);
        }
        let n: u32 = self.write_data(data, initial_offset, table, disk);
        let ghost mid = disk.image();
        proof {
            lemma_from_start(img, img0, mid, table, all, initial_offset as int, data@, n as int);
            assert(file_bytes(mid, table, all, initial_offset as int, n as int)
                =~= data@.subrange(0, n as int));
            assert(mid.subrange(off, off + 32) =~= img.subrange(off, off + 32)) by {
                assert forall|p: int| off <= p < off + 32 implies mid[p] == img[p] by {
                    lemma_slot_outside(table, all, off, p);
                }
            }
        }
        let total: usize = data.len();
        if n as usize == total {
            let new_end: u32 = initial_offset + n;
            if new_end > self.byte_size() {
                self.dir_entry.set_size(new_end);
                disk.write_struct_to_disk(self.dir_entry_disk_offset, &self.dir_entry);
                proof {
                    lemma_entry_updated(
                        img, mid, gimg, table, first, all, off, self.dir_entry@,
                        initial_offset as int, data@, n as int,
                    );
                }
            }
        }
        n
    }
}

/// Writing the directory entry leaves the file and the table alone.
proof fn lemma_entry_updated(
    img: Seq<u8>, mid: Seq<u8>, gimg: Seq<u8>, t: AllocationTable, first: u32, all: Seq<u32>, off: int,
    slot: Seq<u8>, at: int, data: Seq<u8>, n: int,
)
    requires
        t.wf(img.len() as int),
        data_written(img, mid, t, all, at, data, n),
        clusters_apart(t, all, off),
        all_below(t, all),
        slot.len() == 32,
        0 <= off,
        off + 32 <= img.len(),
        off + 32 <= t.table_offset || table_end(t) <= off,
        same_table(mid, gimg, t),
        t.holds(first as int),
        chain_ends(mid, t, first as int),
        all == chain(mid, t, first as int),
        chain_in_use(mid, t, all),
        0 <= at,
        n == bytes_placed(t, all, at, data.len() as int),
    ensures
        ({
            let now = spliced(mid, off, slot);
            &&& now.subrange(off, off + 32) == slot
            &&& same_table(now, gimg, t)
            &&& chain_ends(now, t, first as int)
            &&& all == chain(now, t, first as int)
            &&& chain_in_use(now, t, all)
            &&& file_bytes(now, t, all, at, n) == data.subrange(0, n)
            &&& forall|i: int| 0 <= i < capacity(t, all) && !(at <= i < at + n) ==> now[
                #[trigger] file_pos(t, all, i)] == img[file_pos(t, all, i)]
            &&& forall|p: int| 0 <= p < img.len() && !in_table(t, p) && !in_clusters(t, all, p)
                && !(off <= p < off + 32) ==> #[trigger] now[p] == img[p]
        }),
{
    let now = spliced(mid, off, slot);
    assert(now.subrange(off, off + 32) =~= slot);
    assert(same_table(mid, now, t));
    lemma_same_table_via(mid, now, gimg, t);
    lemma_same_chain(mid, now, t, first as int);
    lemma_in_use_same(mid, now, t, all);
    assert forall|i: int| 0 <= i < capacity(t, all) implies now[#[trigger] file_pos(t, all, i)]
        == mid[file_pos(t, all, i)] by {
        lemma_slot_misses_file(t, all, img.len() as int, off, i);
        lemma_pos_on_disk(t, all, img.len() as int, i);
    }
    assert forall|k: int| 0 <= k < n implies now[file_pos(t, all, at + k)] == #[trigger] data[k] by {
        lemma_placed_in_capacity(t, all, at, data.len() as int, k);
        assert(mid[file_pos(t, all, at + k)] == data[k]);
    }
    assert(file_bytes(now, t, all, at, n) =~= data.subrange(0, n));
    assert forall|p: int| 0 <= p < img.len() && !in_table(t, p) && !in_clusters(t, all, p) && !(off
        <= p < off + 32) implies #[trigger] now[p] == img[p] by {
        assert(mid[p] == img[p]);
    }
}

proof fn lemma_placed_in_capacity(t: AllocationTable, clusters: Seq<u32>, at: int, len: int, k: int)
    requires
        0 <= at,
        0 <= k < bytes_placed(t, clusters, at, len),
    ensures
        0 <= at + k < capacity(t, clusters),
{
}

/// A byte of the slot is in none of the clusters.
proof fn lemma_slot_outside(t: AllocationTable, clusters: Seq<u32>, off: int, p: int)
    requires
        clusters_apart(t, clusters, off),
        off <= p < off + 32,
    ensures
        !in_clusters(t, clusters, p),
{
    if in_clusters(t, clusters, p) {
        let j = choose|j: int| 0 <= j < clusters.len() && t.location((#[trigger] clusters[j]) as int)
            <= p < t.location(clusters[j] as int) + t.cluster_bytes;
        assert(off + 32 <= t.location(clusters[j] as int) || t.location(clusters[j] as int)
            + t.cluster_bytes <= off);
    }
}

/// No cluster overlaps the slot at `off`.
pub open spec fn clusters_apart(t: AllocationTable, clusters: Seq<u32>, off: int) -> bool {
    forall|j: int| 0 <= j < clusters.len() ==> off + 32 <= t.location((#[trigger] clusters[j]) as int)
        || t.location(clusters[j] as int) + t.cluster_bytes <= off
}

proof fn lemma_slot_misses_file(t: AllocationTable, clusters: Seq<u32>, len: int, off: int, i: int)
    requires
        t.wf(len),
        all_below(t, clusters),
        clusters_apart(t, clusters, off),
        0 <= i < capacity(t, clusters),
    ensures
        !(off <= file_pos(t, clusters, i) < off + 32),
{
    lemma_pos_on_disk(t, clusters, len, i);
    let j = i / (t.cluster_bytes as int);
    assert(off + 32 <= t.location(clusters[j] as int) || t.location(clusters[j] as int)
        + t.cluster_bytes <= off);
}

/// The slot lies apart from all clusters that a write may use.
proof fn lemma_clusters_apart(
    img: Seq<u8>, img0: Seq<u8>, t: AllocationTable, chain0: Seq<u32>, clusters0: Seq<u32>,
    all: Seq<u32>, off: int,
)
    requires
        t.wf(img.len() as int),
        slot_apart(t, img, chain0, off),
        img0 == img && clusters0 == chain0 || (clusters0.len() == 1 && t.holds(clusters0[0] as int)
            && fat_get(img, t, clusters0[0] as int) == 0 && img0 == fat_set(
            img, t, clusters0[0] as int, 0xfff,
        )),
        clusters0.len() <= all.len(),
        all.subrange(0, clusters0.len() as int) == clusters0,
        forall|i: int| 0 <= i < all.len() ==> t.holds((#[trigger] all[i]) as int),
        forall|i: int| clusters0.len() <= i < all.len() ==> fat_get(
            img0, t, (#[trigger] all[i]) as int,
        ) == 0,
    ensures
        clusters_apart(t, all, off),
{
    assert forall|j: int| 0 <= j < all.len() implies off + 32 <= t.location(
        (#[trigger] all[j]) as int,
    ) || t.location(all[j] as int) + t.cluster_bytes <= off by {
        let c = all[j];
        assert(t.holds(c as int));
        if j < clusters0.len() {
            assert(clusters0[j] == all.subrange(0, clusters0.len() as int)[j]);
            if img0 == img && clusters0 == chain0 {
                assert(chain0.contains(c));
            }
        } else if !(img0 == img && clusters0 == chain0) {
            table_entries_are_independent(img, t, clusters0[0] as int, 0xfff, c as int);
        }
    }
}

/// A write that follows the allocation of a first cluster, seen from before it.
proof fn lemma_from_start(
    img: Seq<u8>, img0: Seq<u8>, now: Seq<u8>, t: AllocationTable, all: Seq<u32>, at: int,
    data: Seq<u8>, n: int,
)
    requires
        t.wf(img.len() as int),
        data_written(img0, now, t, all, at, data, n),
        img0.len() == img.len(),
        forall|i: int| 0 <= i < img.len() && !in_table(t, i) ==> #[trigger] img0[i] == img[i],
        all_below(t, all),
    ensures
        data_written(img, now, t, all, at, data, n),
{
    assert forall|i: int| 0 <= i < capacity(t, all) && !(at <= i < at + n) implies now[
        #[trigger] file_pos(t, all, i)] == img[file_pos(t, all, i)] by {
        lemma_pos_on_disk(t, all, img.len() as int, i);
        assert(now[file_pos(t, all, i)] == img0[file_pos(t, all, i)]);
    }
    assert forall|p: int| 0 <= p < img.len() && !in_table(t, p) && !in_clusters(t, all, p) implies
        #[trigger] now[p] == img[p] by {
        assert(now[p] == img0[p]);
    }
}

/// What was written to a file is read back, whether or not its clusters are
/// looked up anew.
pub proof fn read_gives_back_what_was_written(
    now: Seq<u8>, t: AllocationTable, f: File, reopened: File, at: int, data: Seq<u8>, n: int, m: int,
)
    requires
        f.wf(t, now),
        f.first() != 0,
        f.cluster_cache@.len() > 0,
        reopened.first() == f.first(),
        reopened.cluster_cache@.len() == 0,
        0 <= m <= n <= data.len(),
        file_bytes(now, t, f.cluster_cache@, at, n) == data.subrange(0, n),
    ensures
        file_bytes(now, t, f.clusters(t, now), at, m) == data.subrange(0, m),
        file_bytes(now, t, reopened.clusters(t, now), at, m) == data.subrange(0, m),
{
    assert forall|k: int| 0 <= k < m implies file_bytes(now, t, f.cluster_cache@, at, m)[k] == data[k] by {
        assert(file_bytes(now, t, f.cluster_cache@, at, n)[k] == data.subrange(0, n)[k]);
    }
    assert(file_bytes(now, t, f.cluster_cache@, at, m) =~= data.subrange(0, m));
}

/// How many of `len` bytes from `at` on fit in the clusters.
pub open spec fn bytes_placed(t: AllocationTable, clusters: Seq<u32>, at: int, len: int) -> int {
    let room = capacity(t, clusters) - at;
    if room <= 0 { 0 } else { lesser(len, room) }
}

proof fn lemma_need_covers(t: AllocationTable, at: int, len: int, offset: int)
    requires
        0 < t.cluster_bytes,
        0 <= at <= offset < at + len,
    ensures
        offset / (t.cluster_bytes as int) < clusters_needed(t, at, len),
        offset / (t.cluster_bytes as int) >= 0,
        0 <= offset % (t.cluster_bytes as int) < t.cluster_bytes,
{
    let b = t.cluster_bytes as int;
    vstd::arithmetic::div_mod::lemma_div_is_ordered(offset, at + len - 1, b);
    lemma_quotient_bound(t, 0, offset);
}

proof fn lemma_capacity_monotone(t: AllocationTable, a: Seq<u32>, b: Seq<u32>)
    requires
        a.len() <= b.len(),
    ensures
        capacity(t, a) <= capacity(t, b),
{
    assert(a.len() * t.cluster_bytes <= b.len() * t.cluster_bytes) by (nonlinear_arith)
        requires a.len() <= b.len(), 0 <= t.cluster_bytes;
}

/// Once all is written, the file has all the clusters it needs.
proof fn lemma_all_placed(
    t: AllocationTable, have: Seq<u32>, all: Seq<u32>, at: int, len: int, need: int,
)
    requires
        0 < t.cluster_bytes,
        0 < len,
        0 <= at,
        need == clusters_needed(t, at, len),
        at + len <= capacity(t, have),
        all.len() >= have.len(),
        all.subrange(0, have.len() as int) == have,
        all.len() <= need || all == have,
    ensures
        all == have,
        need <= have.len(),
        bytes_placed(t, all, at, len) == len,
{
    let b = t.cluster_bytes as int;
    lemma_quotient_bound(t, have.len() as int, at + len - 1);
    assert((at + len - 1) / b < have.len());
    assert(need <= have.len());
    assert(all =~= have) by {
        if all.len() == have.len() {
            assert(all.subrange(0, have.len() as int) =~= all);
        }
    }
}

proof fn lemma_in_use_same(a: Seq<u8>, b: Seq<u8>, t: AllocationTable, clusters: Seq<u32>)
    requires
        same_table(a, b, t),
        chain_in_use(a, t, clusters),
    ensures
        chain_in_use(b, t, clusters),
{
    assert forall|i: int| 0 <= i < clusters.len() implies t.holds((#[trigger] clusters[i]) as int)
        && fat_get(b, t, clusters[i] as int) != 0 by {
        assert(t.holds(clusters[i] as int));
        lemma_same_entries(a, b, t, clusters[i] as int);
    }
}

} // verus!
