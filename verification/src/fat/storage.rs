//! What holds of clusters, files and entries on the disk.
use vstd::prelude::*;

use crate::fat::dir::{
    names_of, padded, record_at, root_listing, sub_listing, SubDirectory,
};
use crate::fat::entry::{
    entry_cluster, entry_free, entry_full_name, entry_modified_date, entry_modified_time, entry_size,
    fresh_entry, until_space,
};
use crate::fat::file::{
    bytes_placed, bytes_read, clusters_needed, entry_after_write, file_bytes, file_pos,
    grown, in_table,
};
use crate::fat::stamp::{FileDate, FileTime};
use crate::fat::table::{
    chain, chain_ends, chain_in_use, fat_get, free_cluster, lemma_chain_suffix, lemma_chain_unfold,
    lemma_free_holds, linked, linking_extends_the_chain, table_entries_are_independent,
    AllocationTable,
};

verus! {

/// Three bytes of the table hold two entries of twelve bits: the first has the first byte and the
/// low half of the second, the other has the rest.
pub proof fn three_bytes_hold_two_entries(img: Seq<u8>, t: AllocationTable, k: int)
    requires
        0 <= k,
        t.table_offset + 3 * k + 3 <= img.len(),
    ensures
        ({
            let at = t.table_offset + 3 * k;
            fat_get(img, t, 2 * k) + fat_get(img, t, 2 * k + 1) * 0x1000 == img[at] + img[at + 1] * 0x100
                + img[at + 2] * 0x1_0000
        }),
        0 <= fat_get(img, t, 2 * k) < 0x1000,
        0 <= fat_get(img, t, 2 * k + 1) < 0x1000,
{
    let b = img[t.table_offset + 3 * k + 1] as int;
    assert(b == b / 16 * 16 + b % 16);
    assert((2 * k) / 2 == k && (2 * k + 1) / 2 == k);
}

/// A chain begins at its cluster. Behind each cluster comes the one that its entry in the table
/// names, up to one whose entry names no cluster.
pub proof fn chains_follow_the_table(img: Seq<u8>, t: AllocationTable, c: u32, i: int)
    requires
        chain_ends(img, t, c as int),
        2 <= c < t.entry_count,
        0 <= i < chain(img, t, c as int).len(),
    ensures
        ({
            let l = chain(img, t, c as int);
            &&& l[0] == c
            &&& i + 1 < l.len() ==> l[i + 1] == fat_get(img, t, l[i] as int)
            &&& 2 <= l[i] < t.entry_count
            &&& i + 1 == l.len() ==> !(2 <= fat_get(img, t, l[i] as int) < t.entry_count)
        }),
    decreases i,
{
    lemma_chain_unfold(img, t, c as int);
    lemma_chain_suffix(img, t, c, i);
    if i > 0 {
        chains_follow_the_table(img, t, c, i - 1);
        lemma_chain_suffix(img, t, c, i - 1);
    }
}

proof fn lemma_lowest_free(img: Seq<u8>, t: AllocationTable, c: int)
    requires
        2 <= c,
    ensures
        crate::fat::table::free_from(img, t, c) matches Some(f) ==> forall|d: int|
            c <= d < f ==> #[trigger] fat_get(img, t, d) != 0,
    decreases t.entry_count - c,
{
    if c < t.entry_count && fat_get(img, t, c) != 0 {
        lemma_lowest_free(img, t, c + 1);
    }
}

/// A free cluster is one whose entry is zero, the first of them. There is none where no entry is.
pub proof fn the_first_free_cluster_is_taken(img: Seq<u8>, t: AllocationTable)
    ensures
        free_cluster(img, t) matches Some(c) ==> 2 <= c < t.entry_count && fat_get(img, t, c as int) == 0
            && forall|d: int| 2 <= d < c ==> #[trigger] fat_get(img, t, d) != 0,
        free_cluster(img, t) is None ==> forall|d: int|
            2 <= d < t.entry_count ==> #[trigger] fat_get(img, t, d) != 0,
{
    lemma_free_holds(img, t, 2);
    lemma_lowest_free(img, t, 2);
}

/// A file is its clusters one after the other. The first cluster of data has the number two.
pub proof fn files_are_their_clusters(
    img: Seq<u8>, t: AllocationTable, clusters: Seq<u32>, j: int,
)
    requires
        t.wf(img.len() as int),
        0 <= j < clusters.len(),
        2 <= clusters[j] < t.entry_count,
    ensures
        ({
            let size = t.cluster_bytes as int;
            let start = t.data_offset + (clusters[j] - 2) * size;
            file_bytes(img, t, clusters, j * size, size) == img.subrange(start, start + size)
        }),
{
    let size = t.cluster_bytes as int;
    let start = t.data_offset + (clusters[j] - 2) * size;
    crate::fat::table::lemma_cluster_on_disk(t, img.len() as int, clusters[j] as int);
    assert forall|k: int| 0 <= k < size implies #[trigger] file_pos(t, clusters, j * size + k) == start
        + k by {
        vstd::arithmetic::div_mod::lemma_fundamental_div_mod_converse(j * size + k, size, j, k);
    }
    assert(file_bytes(img, t, clusters, j * size, size) =~= img.subrange(start, start + size));
}

/// What is read in two pieces is what is read in one.
pub proof fn pieces_of_a_file_join(
    img: Seq<u8>, t: AllocationTable, clusters: Seq<u32>, at: int, n: int, m: int,
)
    requires
        0 <= n,
        0 <= m,
    ensures
        file_bytes(img, t, clusters, at, n) + file_bytes(img, t, clusters, at + n, m) == file_bytes(
            img, t, clusters, at, n + m,
        ),
{
    assert(file_bytes(img, t, clusters, at, n) + file_bytes(img, t, clusters, at + n, m)
        =~= file_bytes(img, t, clusters, at, n + m));
}

/// A read gives all that was asked for, up to the end of the file.
pub proof fn reads_end_with_the_file(
    t: AllocationTable, clusters: Seq<u32>, size: int, at: int, len: int,
)
    requires
        0 <= at,
        0 <= len,
        0 <= size <= clusters.len() * t.cluster_bytes,
    ensures
        at + len <= size ==> bytes_read(t, clusters, size, at, len) == len,
        at <= size < at + len ==> bytes_read(t, clusters, size, at, len) == size - at,
        at >= size ==> bytes_read(t, clusters, size, at, len) == 0,
{
}

/// As many clusters are needed as hold the bytes, and no more. Bytes for which there are clusters
/// all find room.
pub proof fn clusters_hold_what_they_are_needed_for(
    t: AllocationTable, clusters: Seq<u32>, at: int, len: int,
)
    requires
        0 < t.cluster_bytes,
        0 <= at,
        0 < len,
    ensures
        at + len <= clusters_needed(t, at, len) * t.cluster_bytes,
        (clusters_needed(t, at, len) - 1) * t.cluster_bytes < at + len,
        clusters.len() >= clusters_needed(t, at, len) ==> bytes_placed(t, clusters, at, len) == len,
        at + len > clusters.len() * t.cluster_bytes > at ==> bytes_placed(t, clusters, at, len)
            == clusters.len() * t.cluster_bytes - at,
{
    let b = t.cluster_bytes as int;
    let q = (at + len - 1) / b;
    vstd::arithmetic::div_mod::lemma_fundamental_div_mod(at + len - 1, b);
    assert(b * q <= at + len - 1 < b * q + b);
    assert((q + 1) * b == b * q + b) by (nonlinear_arith);
    assert(q * b == b * q) by (nonlinear_arith);
    if clusters.len() >= q + 1 {
        assert(clusters.len() * b >= (q + 1) * b) by (nonlinear_arith)
            requires
                clusters.len() >= q + 1,
                b > 0,
        ;
    }
}

/// A chain that grows keeps its clusters and gets free ones, until there are enough or none is
/// free. Nothing but the table changes.
#[verifier::rlimit(50)]
pub proof fn files_grow_by_free_clusters(
    img: Seq<u8>, t: AllocationTable, c: u32, need: int, p: int,
)
    requires
        t.wf(img.len() as int),
        chain_ends(img, t, c as int),
        chain_in_use(img, t, chain(img, t, c as int)),
        0 <= p < img.len(),
    ensures
        ({
            let l = chain(img, t, c as int);
            let (after, all) = grown(img, t, l, need);
            &&& after.len() == img.len()
            &&& chain_ends(after, t, c as int)
            &&& chain(after, t, c as int) == all
            &&& l.len() <= all.len()
            &&& all.subrange(0, l.len() as int) == l
            &&& forall|i: int|
                l.len() <= i < all.len() ==> 2 <= #[trigger] all[i] < t.entry_count && fat_get(
                    img, t, all[i] as int,
                ) == 0
            &&& all.len() >= need || free_cluster(after, t) is None
            &&& l.len() < need ==> all.len() <= need
            &&& l.len() >= need ==> after == img
            &&& !in_table(t, p) ==> after[p] == img[p]
        }),
    decreases need - chain(img, t, c as int).len(),
{
    let l = chain(img, t, c as int);
    lemma_chain_unfold(img, t, c as int);
    if l.len() < need {
        lemma_free_holds(img, t, 2);
        if let Some(x) = free_cluster(img, t) {
            let next = linked(img, t, l.last() as int, x as int);
            linking_extends_the_chain(img, t, c, x);
            files_grow_by_free_clusters(next, t, c, need, p);
            let all = grown(img, t, l, need).1;
            assert(l.push(x).subrange(0, l.len() as int) =~= l);
            assert(all.subrange(0, l.len() as int) =~= all.subrange(0, l.push(x).len() as int).subrange(
                0, l.len() as int,
            ));
            assert(all.subrange(0, l.push(x).len() as int)[l.len() as int] == all[l.len() as int]);
            assert(t.holds(l.last() as int));
            let marked = crate::fat::table::fat_set(img, t, x as int, 0xfff);
            table_entries_are_independent(img, t, x as int, 0xfff, x as int);
            table_entries_are_independent(marked, t, l.last() as int, x as int, x as int);
            assert forall|i: int| l.len() <= i < all.len() implies 2 <= #[trigger] all[i] < t.entry_count
                && fat_get(img, t, all[i] as int) == 0 by {
                if i > l.len() {
                    let d = all[i] as int;
                    assert(fat_get(next, t, d) == 0);
                    table_entries_are_independent(img, t, x as int, 0xfff, d);
                    table_entries_are_independent(marked, t, l.last() as int, x as int, d);
                    assert(d != x) by {
                        assert(fat_get(next, t, x as int) != 0) by {
                            assert(l.push(x)[l.len() as int] == x);
                        }
                    }
                    assert(d != l.last()) by {
                        assert(l.push(x)[l.len() - 1] == l.last());
                        assert(fat_get(next, t, l.last() as int) != 0);
                    }
                }
            }
        }
    }
}

/// A file is as long as the furthest byte that was written, and begins at its first cluster. Else
/// its entry stays.
pub proof fn files_grow_as_they_are_written(
    entry: Seq<u8>, first: u32, at: int, len: int, n: int, k: int,
)
    requires
        entry.len() == 32,
        0 < first <= 0xffff,
        0 <= at,
        0 <= n <= len,
        at + len <= u32::MAX,
        0 <= k < 32,
    ensures
        ({
            let e = entry_after_write(entry, first, at, len, n);
            &&& e.len() == 32
            &&& entry_size(e) as int == (if n == len && at + len > entry_size(entry) {
                at + len
            } else {
                entry_size(entry) as int
            })
            &&& entry_cluster(e) as int == (if entry_cluster(entry) == 0 {
                first as int
            } else {
                entry_cluster(entry) as int
            })
            &&& k < 26 ==> e[k] == entry[k]
        }),
{
    if n == len && at + n > entry_size(entry) {
        crate::bits::bytes_round_trip((at + n) as u32, 0, 0, 0, 0);
    }
    lemma_word((first as u16));
}

proof fn lemma_word(v: u16)
    ensures
        crate::bits::u16_of((v % 256) as u8, (v / 256) as u8) == v,
{
}

/// An entry holds what it was made with: name, attributes, first cluster and stamps. A new file is
/// empty.
#[verifier::rlimit(50)]
pub proof fn entries_hold_what_they_were_made_with(
    name: Seq<u8>, ext: Seq<u8>, attributes: u8, cluster: u16, date: FileDate, time: FileTime,
)
    requires
        name.len() == 8,
        ext.len() == 3,
    ensures
        ({
            let e = fresh_entry(name, ext, attributes, cluster, date, time);
            &&& e.len() == 32
            &&& e.subrange(0, 8) == name
            &&& e.subrange(8, 11) == ext
            &&& e[11] == attributes
            &&& entry_cluster(e) == cluster
            &&& entry_size(e) == 0
            &&& entry_modified_date(e) == date
            &&& entry_modified_time(e) == time
            &&& crate::bits::u16_of(e[14], e[15]) == time.0 && crate::bits::u16_of(e[16], e[17]) == date.0
            &&& crate::bits::u16_of(e[18], e[19]) == date.0
        }),
{
    let e = fresh_entry(name, ext, attributes, cluster, date, time);
    assert(e.subrange(0, 8) =~= name);
    assert(e.subrange(8, 11) =~= ext);
    lemma_word(cluster);
    lemma_word(date.0);
    lemma_word(time.0);
}

proof fn lemma_before_spaces(s: Seq<u8>, n: nat)
    requires
        s.len() <= n,
        forall|i: int| 0 <= i < s.len() ==> #[trigger] s[i] != 0x20,
    ensures
        until_space(padded(s, n)) == s,
    decreases n,
{
    let p = padded(s, n);
    if s.len() == 0 {
        assert(until_space(p) =~= s);
    } else {
        assert(p.drop_first() =~= padded(s.drop_first(), (n - 1) as nat));
        lemma_before_spaces(s.drop_first(), (n - 1) as nat);
        assert(seq![s[0]] + s.drop_first() =~= s);
    }
}

/// A file is shown under the name that it was given: the name, and a dot and the extension where it
/// has one.
pub proof fn files_are_shown_by_their_names(
    base: Seq<u8>, ext: Seq<u8>, attributes: u8, cluster: u16, date: FileDate, time: FileTime,
)
    requires
        base.len() <= 8,
        ext.len() <= 3,
        forall|i: int| 0 <= i < base.len() ==> #[trigger] base[i] != 0x20,
        forall|i: int| 0 <= i < ext.len() ==> #[trigger] ext[i] != 0x20,
        vstd::utf8::valid_utf8(base),
        vstd::utf8::valid_utf8(ext),
    ensures
        ({
            let e = fresh_entry(padded(base, 8), padded(ext, 3), attributes, cluster, date, time);
            entry_full_name(e) == (if ext.len() == 0 { base } else { base + seq![0x2eu8] + ext })
        }),
{
    entries_hold_what_they_were_made_with(
        padded(base, 8), padded(ext, 3), attributes, cluster, date, time,
    );
    lemma_before_spaces(base, 8);
    lemma_before_spaces(ext, 3);
    let e = fresh_entry(padded(base, 8), padded(ext, 3), attributes, cluster, date, time);
    assert(e.subrange(8, 11)[0] == e[8]);
}

/// The names of a directory are told one after the other, each with a zero behind it.
pub proof fn names_end_with_a_zero(a: Seq<(Seq<u8>, u32)>, r: Seq<u8>, off: u32)
    ensures
        names_of(Seq::empty()) == Seq::<u8>::empty(),
        names_of(a.push((r, off))) == names_of(a) + entry_full_name(r).push(0),
{
    assert(a.push((r, off)).drop_last() =~= a);
    assert(names_of(a) + entry_full_name(r) + seq![0u8] =~= names_of(a) + entry_full_name(r).push(0));
}

/// The records of the slots, each with its place.
pub open spec fn records(img: Seq<u8>, slots: Seq<u32>) -> Seq<(Seq<u8>, u32)> {
    Seq::new(slots.len(), |i: int| (record_at(img, slots[i] as int), slots[i]))
}

/// Whether the file of a record was deleted.
pub open spec fn deleted(e: (Seq<u8>, u32)) -> bool {
    e.0[0] == 0xe5
}

proof fn lemma_listed(img: Seq<u8>, slots: Seq<u32>, i: int, end: int)
    requires
        0 <= i <= end <= slots.len(),
        forall|j: int| i <= j < end ==> record_at(img, (#[trigger] slots[j]) as int)[0] != 0,
        end < slots.len() ==> record_at(img, slots[end] as int)[0] == 0,
    ensures
        sub_listing(img, slots, i) == records(img, slots).subrange(i, end).filter(
            |e: (Seq<u8>, u32)| !deleted(e),
        ),
    decreases end - i,
{
    let keep = |e: (Seq<u8>, u32)| !deleted(e);
    let all = records(img, slots);
    if i == end {
        assert(all.subrange(i, end) =~= Seq::empty());
        reveal(Seq::filter);
    } else {
        lemma_listed(img, slots, i + 1, end);
        let one = seq![all[i]];
        assert(all.subrange(i, end) =~= one + all.subrange(i + 1, end));
        Seq::filter_distributes_over_add(one, all.subrange(i + 1, end), keep);
        reveal(Seq::filter);
        assert(one.drop_last() =~= Seq::empty());
        assert(one.last() == all[i]);
        assert(record_at(img, slots[i] as int)[0] != 0);
        if keep(all[i]) {
            assert(one.filter(keep) =~= one);
        } else {
            assert(one.drop_last().filter(keep).len() == 0);
            assert(one.filter(keep) == one.drop_last().filter(keep));
            assert(one.filter(keep) =~= Seq::empty());
            assert(Seq::<(Seq<u8>, u32)>::empty() + all.subrange(i + 1, end).filter(keep)
                =~= all.subrange(i + 1, end).filter(keep));
        }
    }
}

/// A directory lists the records of its slots in their order, up to the first that was never used,
/// without those of deleted files.
pub proof fn directories_list_what_is_not_deleted(img: Seq<u8>, slots: Seq<u32>, end: int)
    requires
        0 <= end <= slots.len(),
        forall|j: int| 0 <= j < end ==> record_at(img, (#[trigger] slots[j]) as int)[0] != 0,
        end < slots.len() ==> record_at(img, slots[end] as int)[0] == 0,
    ensures
        sub_listing(img, slots, 0) == records(img, slots).subrange(0, end).filter(
            |e: (Seq<u8>, u32)| !deleted(e),
        ),
{
    lemma_listed(img, slots, 0, end);
}

proof fn lemma_root_listed(img: Seq<u8>, slots: Seq<u32>, i: int, end: int)
    requires
        0 <= i <= end < slots.len(),
        forall|j: int|
            i <= j < end ==> !entry_free(record_at(img, (#[trigger] slots[j]) as int)),
        end + 1 == slots.len() || entry_free(record_at(img, slots[end] as int)),
    ensures
        root_listing(img, slots, i) == records(img, slots).subrange(i, end),
    decreases end - i,
{
    let all = records(img, slots);
    if i < end {
        lemma_root_listed(img, slots, i + 1, end);
        assert(!entry_free(record_at(img, slots[i] as int)));
        assert(all.subrange(i, end) =~= seq![all[i]] + all.subrange(i + 1, end));
    } else {
        assert(all.subrange(i, end) =~= Seq::empty());
    }
}

/// The root lists the records of its slots in their order, up to the first slot that is free, or
/// the last one.
pub proof fn the_root_lists_up_to_a_free_slot(img: Seq<u8>, slots: Seq<u32>, end: int)
    requires
        0 <= end < slots.len(),
        forall|j: int|
            0 <= j < end ==> !entry_free(record_at(img, (#[trigger] slots[j]) as int)),
        end + 1 == slots.len() || entry_free(record_at(img, slots[end] as int)),
    ensures
        root_listing(img, slots, 0) == records(img, slots).subrange(0, end),
{
    lemma_root_listed(img, slots, 0, end);
}

/// A directory without a free slot gets a cluster of its own: the chain is longer by one free cluster,
/// the entry stands first in it, the rest of it is zero, and all other clusters stay.
#[verifier::rlimit(50)]
pub proof fn full_directories_grow(
    sub: SubDirectory, t: AllocationTable, img: Seq<u8>, r: Seq<u8>, p: int,
)
    requires
        sub.wf(t, img),
        2 <= sub.first_cluster,
        chain_in_use(img, t, chain(img, t, sub.first_cluster as int)),
        crate::fat::dir::free_slot(img, sub.slots(t, img), 0) is None,
        r.len() == 32,
        0 <= p < img.len(),
    ensures
        ({
            let (after, at) = sub.written(t, img, r);
            let l = chain(img, t, sub.first_cluster as int);
            &&& at is None == free_cluster(img, t) is None
            &&& at is None ==> after == img
            &&& free_cluster(img, t) matches Some(c) ==> {
                let start = t.data_offset + (c - 2) * t.cluster_bytes;
                &&& chain(after, t, sub.first_cluster as int) == l.push(c)
                &&& at == Some(start as u32)
                &&& start <= p < start + 32 ==> after[p] == r[p - start]
                &&& start + 32 <= p < start + t.cluster_bytes ==> after[p] == 0
                &&& !(start <= p < start + t.cluster_bytes) && !in_table(t, p) ==> after[p] == img[p]
            }
        }),
{
    let l = chain(img, t, sub.first_cluster as int);
    lemma_free_holds(img, t, 2);
    if let Some(c) = free_cluster(img, t) {
        lemma_chain_unfold(img, t, sub.first_cluster as int);
        linking_extends_the_chain(img, t, sub.first_cluster, c);
        let next = linked(img, t, l.last() as int, c as int);
        let after = sub.written(t, img, r).0;
        crate::fat::table::lemma_cluster_on_disk(t, img.len() as int, c as int);
        assert(crate::fat::table::same_table(next, after, t));
        crate::fat::table::lemma_same_chain(next, after, t, sub.first_cluster as int);
        assert(t.holds(l.last() as int)) by {
            assert(t.holds(l[l.len() - 1] as int));
        }
        table_entries_are_independent(img, t, c as int, 0xfff, c as int);
        table_entries_are_independent(
            crate::fat::table::fat_set(img, t, c as int, 0xfff), t, l.last() as int, c as int, c as int,
        );
    }
}

} // verus!
