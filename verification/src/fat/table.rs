//! The allocation table: clusters linked into chains by 12-bit entries.
use vstd::prelude::*;


use crate::fat::disk::{DiskAccess, DiskIO};

verus! {

/// End of a chain.
pub const CHAIN_END: u32 = 0xfff;

/// Where the table and the clusters lie on the disk.
#[derive(Clone, Copy, PartialEq, Eq, Structural, Debug)]
pub struct AllocationTable {
    /// First byte of the table.
    pub table_offset: u32,
    /// Number of table entries; clusters are numbered from 2.
    pub entry_count: u32,
    /// First byte of cluster 2.
    pub data_offset: u32,
    pub cluster_bytes: u32,
}

/// The first byte that holds part of a table entry.
pub open spec fn entry_pos(t: AllocationTable, c: int) -> int {
    t.table_offset + c + c / 2
}

/// The first byte behind the table.
pub open spec fn table_end(t: AllocationTable) -> int {
    entry_pos(t, t.entry_count as int) + 1
}

/// The entry of a cluster.
pub open spec fn fat_get(img: Seq<u8>, t: AllocationTable, c: int) -> int {
    let p = entry_pos(t, c);
    if c % 2 == 0 { img[p] + (img[p + 1] as int % 16) * 256 } else { img[p] as int / 16 + img[p + 1] * 16 }
}

/// The disk with the entry of a cluster set.
pub open spec fn fat_set(img: Seq<u8>, t: AllocationTable, c: int, v: int) -> Seq<u8> {
    let p = entry_pos(t, c);
    if c % 2 == 0 {
        img.update(p, (v % 256) as u8).update(p + 1, (img[p + 1] as int / 16 * 16 + v / 256) as u8)
    } else {
        img.update(p, (img[p] as int % 16 + v % 16 * 16) as u8).update(p + 1, (v / 16) as u8)
    }
}

impl AllocationTable {
    /// The table lies before the clusters, and all of them on a disk of `len` bytes.
    pub open spec fn wf(&self, len: int) -> bool {
        &&& 3 <= self.entry_count <= 0xff0
        &&& 32 <= self.cluster_bytes
        &&& table_end(*self) <= self.data_offset
        &&& self.data_offset + (self.entry_count - 2) * self.cluster_bytes <= len <= u32::MAX
    }

    /// The number names a cluster.
    pub open spec fn holds(&self, c: int) -> bool {
        2 <= c < self.entry_count
    }

    /// The first byte of a cluster; the reserved numbers stand for the first one.
    pub open spec fn location(&self, c: int) -> int {
        self.data_offset + (if c < 2 { 0 } else { c - 2 }) * self.cluster_bytes
    }
}

/// The cluster that follows in a chain.
pub open spec fn next_cluster(img: Seq<u8>, t: AllocationTable, c: int) -> Option<u32> {
    if t.holds(c) && t.holds(fat_get(img, t, c)) { Some(fat_get(img, t, c) as u32) } else { None }
}

/// The chain from `c` on has at most `n` further clusters.
pub open spec fn ends_within(img: Seq<u8>, t: AllocationTable, c: int, n: nat) -> bool
    decreases n,
{
    match next_cluster(img, t, c) {
        None => true,
        Some(d) => n > 0 && ends_within(img, t, d as int, (n - 1) as nat),
    }
}

/// The chain from `c` on comes to an end.
pub open spec fn chain_ends(img: Seq<u8>, t: AllocationTable, c: int) -> bool {
    exists|n: nat| #[trigger] ends_within(img, t, c, n)
}

/// The clusters from `c` on, at most `n` after it.
pub open spec fn chain_upto(img: Seq<u8>, t: AllocationTable, c: int, n: nat) -> Seq<u32>
    decreases n,
{
    match next_cluster(img, t, c) {
        Some(d) if n > 0 => seq![c as u32] + chain_upto(img, t, d as int, (n - 1) as nat),
        _ => seq![c as u32],
    }
}

/// The clusters from `c` on, to the end of the chain.
pub open spec fn chain(img: Seq<u8>, t: AllocationTable, c: int) -> Seq<u32> {
    chain_upto(img, t, c, choose|n: nat| #[trigger] ends_within(img, t, c, n))
}

/// The lowest free cluster from `c` on.
pub open spec fn free_from(img: Seq<u8>, t: AllocationTable, c: int) -> Option<u32>
    decreases t.entry_count - c,
{
    if c >= t.entry_count {
        None
    } else if fat_get(img, t, c) == 0 {
        Some(c as u32)
    } else {
        free_from(img, t, c + 1)
    }
}

/// The lowest free cluster.
pub open spec fn free_cluster(img: Seq<u8>, t: AllocationTable) -> Option<u32> {
    free_from(img, t, 2)
}

/// Two disks have the same table.
pub open spec fn same_table(a: Seq<u8>, b: Seq<u8>, t: AllocationTable) -> bool {
    a.len() == b.len() && forall|i: int| t.table_offset <= i < table_end(t) ==> #[trigger] a[i] == b[i]
}

/// Two tables that agree with a third agree.
pub proof fn lemma_same_table_via(a: Seq<u8>, b: Seq<u8>, c: Seq<u8>, t: AllocationTable)
    requires
        same_table(a, b, t),
        same_table(a, c, t),
    ensures
        same_table(b, c, t),
{
    assert forall|i: int| t.table_offset <= i < table_end(t) implies #[trigger] b[i] == c[i] by {
        assert(a[i] == b[i]);
    }
}

/// Setting an entry gives it that value, and leaves every other entry and every
/// byte outside the table as it was.
pub proof fn table_entries_are_independent(img: Seq<u8>, t: AllocationTable, c: int, v: int, d: int)
    requires
        t.wf(img.len() as int),
        t.holds(c),
        t.holds(d),
        0 <= v < 4096,
    ensures
        fat_get(fat_set(img, t, c, v), t, c) == v,
        d != c ==> fat_get(fat_set(img, t, c, v), t, d) == fat_get(img, t, d),
        fat_set(img, t, c, v).len() == img.len(),
        forall|i: int| 0 <= i < img.len() && !(t.table_offset <= i < table_end(t)) ==>
            #[trigger] fat_set(img, t, c, v)[i] == img[i],
        0 <= fat_get(img, t, d) < 4096,
{
    lemma_entry_in_table(t, c);
    lemma_entry_in_table(t, d);
    let p = entry_pos(t, c);
    let q = entry_pos(t, d);
    if d > c + 1 {
        assert(q >= p + 3);
    } else if d + 1 < c {
        assert(p >= q + 3);
    }
}

pub proof fn lemma_entry_in_table(t: AllocationTable, c: int)
    requires
        0 <= c < t.entry_count,
    ensures
        t.table_offset <= entry_pos(t, c),
        entry_pos(t, c) + 1 < table_end(t),
{
}

/// Entries are below 4096 and come from bytes of the table.
pub proof fn lemma_same_entries(a: Seq<u8>, b: Seq<u8>, t: AllocationTable, c: int)
    requires
        same_table(a, b, t),
        0 <= c < t.entry_count,
    ensures
        fat_get(a, t, c) == fat_get(b, t, c),
        next_cluster(a, t, c) == next_cluster(b, t, c),
{
    lemma_entry_in_table(t, c);
}

pub proof fn lemma_same_free(a: Seq<u8>, b: Seq<u8>, t: AllocationTable, c: int)
    requires
        same_table(a, b, t),
        0 <= c,
    ensures
        free_from(a, t, c) == free_from(b, t, c),
    decreases t.entry_count - c,
{
    if c < t.entry_count {
        lemma_same_entries(a, b, t, c);
        lemma_same_free(a, b, t, c + 1);
    }
}

/// A free cluster is a cluster, and its entry is zero.
pub proof fn lemma_free_holds(img: Seq<u8>, t: AllocationTable, c: int)
    requires
        2 <= c,
    ensures
        free_from(img, t, c) matches Some(f) ==> c <= f < t.entry_count && fat_get(img, t, f as int) == 0,
        free_from(img, t, c).is_none() ==> forall|d: int| c <= d < t.entry_count ==>
            #[trigger] fat_get(img, t, d) != 0,
    decreases t.entry_count - c,
{
    if c < t.entry_count && fat_get(img, t, c) != 0 {
        lemma_free_holds(img, t, c + 1);
    }
}

/// A cluster lies on the disk, behind the table.
pub proof fn lemma_cluster_on_disk(t: AllocationTable, len: int, c: int)
    requires
        t.wf(len),
        0 <= c < t.entry_count,
    ensures
        t.data_offset <= t.location(c),
        t.location(c) + t.cluster_bytes <= len,
{
    let k = if c < 2 { 0 } else { c - 2 };
    let b = t.cluster_bytes as int;
    assert(0 <= k * b) by (nonlinear_arith) requires 0 <= k, 0 <= b;
    assert(k * b + b <= (t.entry_count - 2) * b) by (nonlinear_arith)
        requires k + 1 <= t.entry_count - 2, 0 <= b;
}

/// Different clusters do not overlap.
pub proof fn clusters_do_not_overlap(t: AllocationTable, c: int, d: int)
    requires
        t.holds(c),
        t.holds(d),
        c < d,
    ensures
        t.location(c) + t.cluster_bytes <= t.location(d),
{
    let b = t.cluster_bytes as int;
    assert((c - 2) * b + b <= (d - 2) * b) by (nonlinear_arith) requires c + 1 <= d, 0 <= b;
}

/// A chain that ends does not depend on how far one looks.
pub proof fn lemma_chain_upto_same(img: Seq<u8>, t: AllocationTable, c: int, n: nat, m: nat)
    requires
        ends_within(img, t, c, n),
        ends_within(img, t, c, m),
    ensures
        chain_upto(img, t, c, n) == chain_upto(img, t, c, m),
    decreases n,
{
    match next_cluster(img, t, c) {
        Some(d) => {
            lemma_chain_upto_same(img, t, d as int, (n - 1) as nat, (m - 1) as nat);
        },
        None => {},
    }
}

/// A chain is its first cluster and the chain from the next one on.
pub proof fn lemma_chain_unfold(img: Seq<u8>, t: AllocationTable, c: int)
    requires
        chain_ends(img, t, c),
    ensures
        chain(img, t, c) == (match next_cluster(img, t, c) {
            Some(d) => seq![c as u32] + chain(img, t, d as int),
            None => seq![c as u32],
        }),
        next_cluster(img, t, c) matches Some(d) ==> chain_ends(img, t, d as int),
        chain(img, t, c).len() > 0,
        chain(img, t, c)[0] == c as u32,
{
    let n = choose|n: nat| #[trigger] ends_within(img, t, c, n);
    match next_cluster(img, t, c) {
        Some(d) => {
            assert(ends_within(img, t, d as int, (n - 1) as nat));
            let m = choose|m: nat| #[trigger] ends_within(img, t, d as int, m);
            lemma_chain_upto_same(img, t, d as int, (n - 1) as nat, m);
        },
        None => {},
    }
}

/// All clusters of a chain but the first are clusters of the table.
pub proof fn lemma_chain_holds(img: Seq<u8>, t: AllocationTable, c: int, n: nat)
    requires
        0 <= c < t.entry_count,
    ensures
        forall|i: int| 0 <= i < chain_upto(img, t, c, n).len() ==>
            (#[trigger] chain_upto(img, t, c, n)[i]) < t.entry_count,
    decreases n,
{
    match next_cluster(img, t, c) {
        Some(d) if n > 0 => {
            lemma_chain_holds(img, t, d as int, (n - 1) as nat);
            let tail = chain_upto(img, t, d as int, (n - 1) as nat);
            let all = chain_upto(img, t, c, n);
            assert forall|i: int| 0 <= i < all.len() implies (#[trigger] all[i]) < t.entry_count by {
                if i > 0 {
                    assert(all[i] == tail[i - 1]);
                }
            }
        },
        _ => {},
    }
}

/// Tables that agree have the same chains.
pub proof fn lemma_same_chain_upto(a: Seq<u8>, b: Seq<u8>, t: AllocationTable, c: int, n: nat)
    requires
        same_table(a, b, t),
        0 <= c < t.entry_count,
    ensures
        ends_within(a, t, c, n) == ends_within(b, t, c, n),
        chain_upto(a, t, c, n) == chain_upto(b, t, c, n),
    decreases n,
{
    lemma_same_entries(a, b, t, c);
    match next_cluster(a, t, c) {
        Some(d) if n > 0 => {
            lemma_same_chain_upto(a, b, t, d as int, (n - 1) as nat);
        },
        _ => {},
    }
}

pub proof fn lemma_same_chain(a: Seq<u8>, b: Seq<u8>, t: AllocationTable, c: int)
    requires
        same_table(a, b, t),
        0 <= c < t.entry_count,
        chain_ends(a, t, c),
    ensures
        chain_ends(b, t, c),
        chain(a, t, c) == chain(b, t, c),
{
    let n = choose|n: nat| #[trigger] ends_within(a, t, c, n);
    lemma_same_chain_upto(a, b, t, c, n);
    assert(ends_within(b, t, c, n));
    let m = choose|m: nat| #[trigger] ends_within(b, t, c, m);
    lemma_chain_upto_same(b, t, c, n, m);
}

/// What comes after a cluster of a chain is the chain from that cluster on.
pub proof fn lemma_chain_suffix(img: Seq<u8>, t: AllocationTable, c: u32, i: int)
    requires
        chain_ends(img, t, c as int),
        0 <= i < chain(img, t, c as int).len(),
    ensures
        chain_ends(img, t, chain(img, t, c as int)[i] as int),
        chain(img, t, chain(img, t, c as int)[i] as int).len() == chain(img, t, c as int).len() - i,
        i + 1 < chain(img, t, c as int).len() ==> next_cluster(
            img, t, chain(img, t, c as int)[i] as int,
        ) == Some(chain(img, t, c as int)[i + 1]),
        i + 1 == chain(img, t, c as int).len() ==> next_cluster(
            img, t, chain(img, t, c as int)[i] as int,
        ).is_none(),
    decreases i,
{
    lemma_chain_unfold(img, t, c as int);
    match next_cluster(img, t, c as int) {
        Some(d) => {
            lemma_chain_unfold(img, t, d as int);
            if i > 0 {
                lemma_chain_suffix(img, t, d, i - 1);
                assert(chain(img, t, c as int)[i] == chain(img, t, d as int)[i - 1]);
            }
        },
        None => {},
    }
}

/// A chain that ends visits no cluster twice.
pub proof fn chain_has_no_repeats(img: Seq<u8>, t: AllocationTable, c: u32)
    requires
        chain_ends(img, t, c as int),
    ensures
        chain(img, t, c as int).no_duplicates(),
{
    let l = chain(img, t, c as int);
    assert forall|i: int, j: int| 0 <= i < l.len() && 0 <= j < l.len() && i != j implies l[i] != l[j] by {
        lemma_chain_suffix(img, t, c, i);
        lemma_chain_suffix(img, t, c, j);
    }
}

/// All entries of the chain are taken.
pub open spec fn chain_in_use(img: Seq<u8>, t: AllocationTable, clusters: Seq<u32>) -> bool {
    forall|i: int| 0 <= i < clusters.len() ==> t.holds((#[trigger] clusters[i]) as int)
        && fat_get(img, t, clusters[i] as int) != 0
}

/// The disk after the free cluster `x` was taken and linked behind `last`.
pub open spec fn linked(img: Seq<u8>, t: AllocationTable, last: int, x: int) -> Seq<u8> {
    fat_set(fat_set(img, t, x, 0xfff), t, last, x)
}

/// Linking a free cluster behind the last one makes the chain longer by it.
pub proof fn linking_extends_the_chain(img: Seq<u8>, t: AllocationTable, c: u32, x: u32)
    requires
        t.wf(img.len() as int),
        chain_ends(img, t, c as int),
        chain_in_use(img, t, chain(img, t, c as int)),
        t.holds(x as int),
        fat_get(img, t, x as int) == 0,
    ensures
        ({
            let l = chain(img, t, c as int);
            let after = linked(img, t, l.last() as int, x as int);
            &&& chain_ends(after, t, c as int)
            &&& chain(after, t, c as int) == l.push(x)
            &&& chain_in_use(after, t, l.push(x))
            &&& after.len() == img.len()
            &&& !l.contains(x)
        }),
    decreases chain(img, t, c as int).len(),
{
    let l = chain(img, t, c as int);
    lemma_chain_unfold(img, t, c as int);
    let last = l.last();
    let mid = fat_set(img, t, x as int, 0xfff);
    let after = linked(img, t, last as int, x as int);
    assert(t.holds(l[0] as int));
    assert(t.holds(l[l.len() - 1] as int));
    table_entries_are_independent(img, t, x as int, 0xfff, last as int);
    table_entries_are_independent(mid, t, last as int, x as int, x as int);
    assert(fat_get(img, t, l[l.len() - 1] as int) != 0);
    assert(last != x);
    assert(fat_get(after, t, x as int) == 0xfff);
    assert(next_cluster(after, t, x as int).is_none());
    assert(ends_within(after, t, x as int, 0));
    assert(fat_get(after, t, last as int) == x);
    assert(!l.contains(x)) by {
        if l.contains(x) {
            let i = choose|i: int| 0 <= i < l.len() && l[i] == x;
            assert(fat_get(img, t, l[i] as int) != 0);
        }
    }
    assert forall|i: int| 0 <= i < l.push(x).len() implies t.holds((#[trigger] l.push(x)[i]) as int)
        && fat_get(after, t, l.push(x)[i] as int) != 0 by {
        if i < l.len() {
            let y = l[i] as int;
            assert(fat_get(img, t, y) != 0 && t.holds(y));
            table_entries_are_independent(img, t, x as int, 0xfff, y);
            table_entries_are_independent(mid, t, last as int, x as int, y);
        }
    }
    lemma_chain_unfold(after, t, x as int);
    match next_cluster(img, t, c as int) {
        None => {
            assert(l =~= seq![c]);
            assert(last == c);
            assert(next_cluster(after, t, c as int) == Some(x));
            assert(ends_within(after, t, c as int, 1));
            lemma_chain_unfold(after, t, c as int);
            assert(chain(after, t, c as int) =~= l.push(x));
        },
        Some(d) => {
            let ld = chain(img, t, d as int);
            assert(l =~= seq![c] + ld);
            lemma_chain_unfold(img, t, d as int);
            assert(ld.last() == last) by {
                assert(l[l.len() - 1] == ld[ld.len() - 1]);
            }
            chain_has_no_repeats(img, t, c);
            assert(c != last) by {
                assert(l[0] == c && l[l.len() - 1] == last);
            }
            assert(chain_in_use(img, t, ld)) by {
                assert forall|i: int| 0 <= i < ld.len() implies t.holds((#[trigger] ld[i]) as int)
                    && fat_get(img, t, ld[i] as int) != 0 by {
                    assert(ld[i] == l[i + 1]);
                }
            }
            linking_extends_the_chain(img, t, d, x);
            table_entries_are_independent(img, t, x as int, 0xfff, c as int);
            table_entries_are_independent(mid, t, last as int, x as int, c as int);
            assert(c != x) by {
                assert(l[0] == c);
                assert(l.contains(c));
            }
            assert(next_cluster(after, t, c as int) == Some(d));
            let n = choose|n: nat| #[trigger] ends_within(after, t, d as int, n);
            assert(ends_within(after, t, c as int, n + 1));
            lemma_chain_unfold(after, t, c as int);
            assert(chain(after, t, c as int) =~= l.push(x));
        },
    }
}

impl AllocationTable {
    pub fn bytes_per_cluster(&self) -> (r: u32)
        ensures
            r == self.cluster_bytes,
    {
        self.cluster_bytes
    }

    pub fn get_cluster_location(&self, cluster: u32) -> (r: u32)
        requires
            exists|len: int| self.wf(len),
            cluster < self.entry_count,
        ensures
            r == self.location(cluster as int),
    {
        let k: u32 = if cluster < 2 { 0 } else { cluster - 2 };
        proof {
            let len = choose|len: int| self.wf(len);
            lemma_cluster_on_disk(*self, len, cluster as int);
            assert(0 <= k * self.cluster_bytes) by (nonlinear_arith)
                requires 0 <= k, 0 <= self.cluster_bytes;
        }
        self.data_offset + k * self.cluster_bytes
    }

    fn get_entry<D: DiskIO>(&self, cluster: u32, disk: &mut DiskAccess<D>) -> (r: u32)
        requires
            self.wf(old(disk).image().len() as int),
            cluster < self.entry_count,
        ensures
            r == fat_get(old(disk).image(), *self, cluster as int),
            final(disk).image() == old(disk).image(),
    {
        proof { lemma_entry_in_table(*self, cluster as int); }
        let pos: u32 = self.table_offset + cluster + cluster / 2;
        let pair: Vec<u8> = disk.read_bytes_from_disk(pos, 2);
        if cluster % 2 == 0 {
            pair[0] as u32 + (pair[1] as u32 % 16) * 256
        } else {
            pair[0] as u32 / 16 + pair[1] as u32 * 16
        }
    }

    /// The cluster that follows in a chain, or none at its end.
    pub fn get_next_cluster<D: DiskIO>(&self, cluster: u32, disk: &mut DiskAccess<D>) -> (r: Option<u32>)
        requires
            self.wf(old(disk).image().len() as int),
        ensures
            r == next_cluster(old(disk).image(), *self, cluster as int),
            final(disk).image() == old(disk).image(),
    {
        if cluster < 2 || cluster >= self.entry_count {
            return None;
        }
        let next: u32 = self.get_entry(cluster, disk);
        if next < 2 || next >= self.entry_count { None } else { Some(next) }
    }

    /// Link a cluster to another.
    pub fn set_cluster_entry<D: DiskIO>(&self, cluster: u32, value: u32, disk: &mut DiskAccess<D>)
        requires
            self.wf(old(disk).image().len() as int),
            self.holds(cluster as int),
            value < 4096,
        ensures
            final(disk).image() == fat_set(old(disk).image(), *self, cluster as int, value as int),
            final(disk).image().len() == old(disk).image().len(),
    {
        proof { lemma_entry_in_table(*self, cluster as int); }
        let pos: u32 = self.table_offset + cluster + cluster / 2;
        let ghost img = disk.image();
        let pair: Vec<u8> = disk.read_bytes_from_disk(pos, 2);
        let new: Vec<u8> = if cluster % 2 == 0 {
            vec![(value % 256) as u8, (pair[1] / 16) * 16 + (value / 256) as u8]
        } else {
            vec![pair[0] % 16 + (value % 16) as u8 * 16, (value / 16) as u8]
        };
        disk.write_bytes_to_disk(pos, new.as_slice());
        assert(disk.image() =~= fat_set(img, *self, cluster as int, value as int));
    }

    /// Take the lowest free cluster and mark it as the end of a chain.
    pub fn allocate_cluster<D: DiskIO>(&self, disk: &mut DiskAccess<D>) -> (r: Option<u32>)
        requires
            self.wf(old(disk).image().len() as int),
        ensures
            r == free_cluster(old(disk).image(), *self),
            final(disk).image() == (match r {
                Some(c) => fat_set(old(disk).image(), *self, c as int, 0xfff),
                None => old(disk).image(),
            }),
            final(disk).image().len() == old(disk).image().len(),
            r matches Some(c) ==> self.holds(c as int),
    {
        let mut c: u32 = 2;
        while c < self.entry_count
            invariant
                2 <= c <= self.entry_count,
                self.wf(disk.image().len() as int),
                disk.image() == old(disk).image(),
                free_from(disk.image(), *self, 2) == free_from(disk.image(), *self, c as int),
            decreases self.entry_count - c,
        {
            if self.get_entry(c, disk) == 0 {
                self.set_cluster_entry(c, CHAIN_END, disk);
                return Some(c);
            }
            c += 1;
        }
        None
    }
}

} // verus!
