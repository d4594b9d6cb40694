//! What holds of directories as a whole.
use vstd::prelude::*;

use crate::bytes::spliced;
use crate::fat::dir::{
    cluster_slots, first_match, free_slot, named_slot, record_at, removed, slots_on_disk, sub_listing,
    SubDirectory,
};
use crate::fat::entry::{entry_free, entry_matches};
use crate::fat::table::{
    chain, chain_has_no_repeats, clusters_do_not_overlap, lemma_chain_suffix,
    lemma_cluster_on_disk, lemma_same_chain, same_table, table_end, AllocationTable,
};

verus! {

/// No two slots overlap.
pub open spec fn slots_apart(slots: Seq<u32>) -> bool {
    forall|i: int, j: int| 0 <= i < slots.len() && 0 <= j < slots.len() && i != j ==> (#[trigger] slots[i])
        + 32 <= (#[trigger] slots[j]) || slots[j] + 32 <= slots[i]
}

/// Writing one slot leaves the record of every other slot as it was.
pub proof fn slots_are_independent(img: Seq<u8>, slots: Seq<u32>, i: int, j: int, r: Seq<u8>)
    requires
        slots_apart(slots),
        slots_on_disk(slots, img.len() as int),
        0 <= i < slots.len(),
        0 <= j < slots.len(),
        r.len() == 32,
    ensures
        record_at(spliced(img, slots[i] as int, r), slots[i] as int) == r,
        i != j ==> record_at(spliced(img, slots[i] as int, r), slots[j] as int) == record_at(
            img, slots[j] as int,
        ),
{
    let after = spliced(img, slots[i] as int, r);
    assert(slots[i] + 32 <= img.len());
    assert(slots[j] + 32 <= img.len());
    assert(record_at(after, slots[i] as int) =~= r);
    if i != j {
        assert(record_at(after, slots[j] as int) =~= record_at(img, slots[j] as int));
    }
}

/// The first free slot has a number; all slots before it are taken.
proof fn lemma_free_slot_index(img: Seq<u8>, slots: Seq<u32>, i: int) -> (k: int)
    requires
        0 <= i,
        free_slot(img, slots, i).is_some(),
    ensures
        i <= k < slots.len(),
        free_slot(img, slots, i) == Some(slots[k]),
        entry_free(record_at(img, slots[k] as int)),
        forall|j: int| i <= j < k ==> !entry_free(record_at(img, (#[trigger] slots[j]) as int)),
    decreases slots.len() - i,
{
    if entry_free(record_at(img, slots[i] as int)) {
        i
    } else {
        lemma_free_slot_index(img, slots, i + 1)
    }
}

/// The listing finds the new entry, if no earlier one has its name.
proof fn lemma_found_from(
    img: Seq<u8>, slots: Seq<u32>, k: int, r: Seq<u8>, name: Seq<u8>, ext: Seq<u8>, i: int,
)
    requires
        slots_apart(slots),
        slots_on_disk(slots, img.len() as int),
        0 <= i <= k < slots.len(),
        r.len() == 32,
        !entry_free(r),
        entry_matches(r, name, ext),
        forall|j: int| 0 <= j < k ==> !entry_free(record_at(img, (#[trigger] slots[j]) as int)),
        forall|j: int| 0 <= j < k ==> !entry_matches(
            record_at(img, (#[trigger] slots[j]) as int), name, ext,
        ),
    ensures
        first_match(sub_listing(spliced(img, slots[k] as int, r), slots, i), name, ext) == Some(
            (r, slots[k]),
        ),
    decreases k - i,
{
    let after = spliced(img, slots[k] as int, r);
    slots_are_independent(img, slots, k, i, r);
    let l = sub_listing(after, slots, i);
    if i < k {
        lemma_found_from(img, slots, k, r, name, ext, i + 1);
        assert(!entry_free(record_at(img, slots[i] as int)));
        assert(!entry_matches(record_at(img, slots[i] as int), name, ext));
        assert(l[0].0 == record_at(img, slots[i] as int));
        assert(l.drop_first() =~= sub_listing(after, slots, i + 1));
    } else {
        assert(l[0] == (r, slots[k]));
    }
}

/// An entry written into a free slot of a subdirectory is found under its name,
/// unless an entry before it has the same name.
pub proof fn written_entry_is_found(
    img: Seq<u8>, slots: Seq<u32>, r: Seq<u8>, name: Seq<u8>, ext: Seq<u8>,
)
    requires
        slots_apart(slots),
        slots_on_disk(slots, img.len() as int),
        free_slot(img, slots, 0).is_some(),
        r.len() == 32,
        !entry_free(r),
        entry_matches(r, name, ext),
        forall|j: int| 0 <= j < slots.len() ==> !entry_matches(
            record_at(img, (#[trigger] slots[j]) as int), name, ext,
        ),
    ensures
        ({
            let off = free_slot(img, slots, 0).unwrap();
            first_match(sub_listing(spliced(img, off as int, r), slots, 0), name, ext) == Some((r, off))
        }),
{
    let k = lemma_free_slot_index(img, slots, 0);
    lemma_found_from(img, slots, k, r, name, ext, 0);
}

proof fn lemma_named_slot_index(img: Seq<u8>, slots: Seq<u32>, name: Seq<u8>, ext: Seq<u8>, i: int) -> (k: int)
    requires
        0 <= i,
        named_slot(img, slots, name, ext, i).is_some(),
    ensures
        i <= k < slots.len(),
        named_slot(img, slots, name, ext, i) == Some(slots[k]),
        !entry_free(record_at(img, slots[k] as int)),
        entry_matches(record_at(img, slots[k] as int), name, ext),
        forall|j: int| i <= j < k ==> {
            let r = record_at(img, (#[trigger] slots[j]) as int);
            r[0] != 0x00 && (r[0] == 0xe5 || !entry_matches(r, name, ext))
        },
    decreases slots.len() - i,
{
    let r = record_at(img, slots[i] as int);
    if r[0] != 0xe5 && entry_matches(r, name, ext) {
        i
    } else {
        lemma_named_slot_index(img, slots, name, ext, i + 1)
    }
}

/// A removed entry is no longer listed, every other entry still is.
pub proof fn removed_entry_is_gone(img: Seq<u8>, slots: Seq<u32>, name: Seq<u8>, ext: Seq<u8>, e: (Seq<u8>, u32))
    requires
        slots_apart(slots),
        slots_on_disk(slots, img.len() as int),
        named_slot(img, slots, name, ext, 0).is_some(),
    ensures
        ({
            let (after, r) = removed(img, slots, name, ext);
            let off = named_slot(img, slots, name, ext, 0).unwrap();
            &&& r.is_some() && entry_matches(r.unwrap(), name, ext)
            &&& sub_listing(img, slots, 0).contains((r.unwrap(), off))
            &&& sub_listing(after, slots, 0).contains(e) == (sub_listing(img, slots, 0).contains(e)
                && e.1 != off)
        }),
{
    let k = lemma_named_slot_index(img, slots, name, ext, 0);
    let r = record_at(img, slots[k] as int);
    assert(slots[k] + 32 <= img.len());
    assert forall|j: int| 0 <= j < k implies record_at(img, (#[trigger] slots[j]) as int)[0] != 0x00 by {}
    lemma_listing_contains(img, slots, 0, (r, slots[k]));
    let after = removed(img, slots, name, ext).0;
    lemma_listing_contains(img, slots, 0, e);
    lemma_listing_contains(after, slots, 0, e);
    assert forall|j: int| 0 <= j < slots.len() implies #[trigger] record_at(after, slots[j] as int) == (
        if j == k { r.update(0, 0xe5) } else { record_at(img, slots[j] as int) }) by {
        slots_are_independent(img, slots, k, j, r.update(0, 0xe5));
    }
    // A slot is listed if it is in use and none before it was never used.
    if sub_listing(after, slots, 0).contains(e) {
        let j = choose|j: int| listed_at(after, slots, 0, e, j);
        assert(listed_at(after, slots, 0, e, j));
        assert(record_at(after, slots[j] as int) == record_at(img, slots[j] as int) || j == k);
        assert forall|m: int| 0 <= m < j implies record_at(img, (#[trigger] slots[m]) as int)[0] != 0x00 by {
            assert(record_at(after, slots[m] as int)[0] != 0x00);
        }
        assert(listed_at(img, slots, 0, e, j));
        assert(slots[j] != slots[k]);
    }
    if sub_listing(img, slots, 0).contains(e) && e.1 != slots[k] {
        let j = choose|j: int| listed_at(img, slots, 0, e, j);
        assert(listed_at(img, slots, 0, e, j));
        assert(j != k);
        assert(record_at(after, slots[j] as int) == record_at(img, slots[j] as int));
        assert forall|m: int| 0 <= m < j implies record_at(after, (#[trigger] slots[m]) as int)[0] != 0x00 by {
            assert(record_at(img, slots[m] as int)[0] != 0x00);
        }
        assert(listed_at(after, slots, 0, e, j));
    }
    assert(listed_at(img, slots, 0, (r, slots[k]), k));
}

/// The entry `e` is that of slot `j`, which is listed.
spec fn listed_at(img: Seq<u8>, slots: Seq<u32>, i: int, e: (Seq<u8>, u32), j: int) -> bool {
    &&& i <= j < slots.len()
    &&& e == (record_at(img, slots[j] as int), slots[j])
    &&& !entry_free(e.0)
    &&& forall|m: int| i <= m < j ==> record_at(img, (#[trigger] slots[m]) as int)[0] != 0x00
}

proof fn lemma_listing_contains(img: Seq<u8>, slots: Seq<u32>, i: int, e: (Seq<u8>, u32))
    requires
        0 <= i,
    ensures
        sub_listing(img, slots, i).contains(e) == (exists|j: int| listed_at(img, slots, i, e, j)),
    decreases slots.len() - i,
{
    let l = sub_listing(img, slots, i);
    if i < slots.len() {
        let r = record_at(img, slots[i] as int);
        if r[0] == 0x00 {
            assert(!(exists|j: int| listed_at(img, slots, i, e, j))) by {
                if exists|j: int| listed_at(img, slots, i, e, j) {
                    let j = choose|j: int| listed_at(img, slots, i, e, j);
                    if j > i {
                        assert(record_at(img, slots[i] as int)[0] != 0x00);
                    }
                }
            }
        } else {
            let i1 = i + 1;
            lemma_listing_contains(img, slots, i1, e);
            let tail = sub_listing(img, slots, i1);
            if exists|j: int| listed_at(img, slots, i1, e, j) {
                let j = choose|j: int| listed_at(img, slots, i1, e, j);
                assert forall|m: int| i <= m < j implies record_at(img, (#[trigger] slots[m]) as int)[0]
                    != 0x00 by {}
                assert(listed_at(img, slots, i, e, j));
            }
            if exists|j: int| listed_at(img, slots, i, e, j) {
                let j = choose|j: int| listed_at(img, slots, i, e, j);
                if j > i {
                    assert(listed_at(img, slots, i1, e, j));
                }
            }
            if r[0] != 0xe5 {
                assert(l =~= seq![(r, slots[i])] + tail);
                if e == (r, slots[i]) {
                    assert(l[0] == e);
                    assert(listed_at(img, slots, i, e, i));
                }
                if tail.contains(e) {
                    let x = choose|x: int| 0 <= x < tail.len() && tail[x] == e;
                    assert(l[x + 1] == e);
                }
                if l.contains(e) && e != (r, slots[i]) {
                    let x = choose|x: int| 0 <= x < l.len() && l[x] == e;
                    assert(tail[x - 1] == e);
                }
            }
        }
    } else {
        assert(!(exists|j: int| listed_at(img, slots, i, e, j)));
    }
}

proof fn lemma_cluster_slots_len(t: AllocationTable, clusters: Seq<u32>)
    ensures
        cluster_slots(t, clusters).len() == clusters.len() * (t.cluster_bytes as int / 32),
    decreases clusters.len(),
{
    if clusters.len() > 0 {
        lemma_cluster_slots_len(t, clusters.drop_last());
        let per = t.cluster_bytes as int / 32;
        assert((clusters.len() - 1) * per + per == clusters.len() * per) by (nonlinear_arith);
    } else {
        assert(0 * (t.cluster_bytes as int / 32) == 0);
    }
}

/// Each slot lies in one of the clusters.
proof fn lemma_slot_in_cluster(t: AllocationTable, clusters: Seq<u32>, len: int, i: int) -> (r: (int, int))
    requires
        t.wf(len),
        forall|k: int| 0 <= k < clusters.len() ==> t.holds((#[trigger] clusters[k]) as int),
        0 <= i < cluster_slots(t, clusters).len(),
    ensures
        0 <= r.0 < clusters.len(),
        0 <= r.1 < t.cluster_bytes as int / 32,
        cluster_slots(t, clusters)[i] == t.location(clusters[r.0] as int) + r.1 * 32,
        i == r.0 * (t.cluster_bytes as int / 32) + r.1,
    decreases clusters.len(),
{
    let per = t.cluster_bytes as int / 32;
    let a = cluster_slots(t, clusters.drop_last());
    lemma_cluster_slots_len(t, clusters.drop_last());
    assert(t.holds(clusters[clusters.len() - 1] as int));
    lemma_cluster_on_disk(t, len, clusters.last() as int);
    if i < a.len() {
        let r = lemma_slot_in_cluster(t, clusters.drop_last(), len, i);
        r
    } else {
        (clusters.len() - 1, i - a.len())
    }
}

/// The slots of a subdirectory do not overlap.
pub proof fn subdirectory_slots_are_apart(sub: SubDirectory, t: AllocationTable, img: Seq<u8>)
    requires
        sub.wf(t, img),
        t.holds(sub.first_cluster as int),
    ensures
        slots_apart(sub.slots(t, img)),
        slots_on_disk(sub.slots(t, img), img.len() as int),
        forall|i: int| 0 <= i < sub.slots(t, img).len() ==> t.data_offset <= (#[trigger] sub.slots(
            t, img,
        )[i]),
{
    let c = chain(img, t, sub.first_cluster as int);
    chain_has_no_repeats(img, t, sub.first_cluster);
    assert forall|k: int| 0 <= k < c.len() implies t.holds((#[trigger] c[k]) as int) by {
        lemma_chain_suffix(img, t, sub.first_cluster, k);
        if k > 0 {
            lemma_chain_suffix(img, t, sub.first_cluster, k - 1);
        } else {
            crate::fat::table::lemma_chain_unfold(img, t, sub.first_cluster as int);
        }
    }
    let s = sub.slots(t, img);
    let len = img.len() as int;
    let per = t.cluster_bytes as int / 32;
    assert forall|i: int, j: int| 0 <= i < s.len() && 0 <= j < s.len() && i != j implies (#[trigger] s[i])
        + 32 <= (#[trigger] s[j]) || s[j] + 32 <= s[i] by {
        let (a, x) = lemma_slot_in_cluster(t, c, len, i);
        let (b, y) = lemma_slot_in_cluster(t, c, len, j);
        if a != b {
            assert(c[a] != c[b]);
            if c[a] < c[b] {
                clusters_do_not_overlap(t, c[a] as int, c[b] as int);
            } else {
                clusters_do_not_overlap(t, c[b] as int, c[a] as int);
            }
        }
    }
    assert forall|i: int| 0 <= i < s.len() implies (#[trigger] s[i]) + 32 <= len && t.data_offset <= s[i] by {
        let (a, x) = lemma_slot_in_cluster(t, c, len, i);
        lemma_cluster_on_disk(t, len, c[a] as int);
    }
}

/// What is added to a subdirectory with a free slot is found there under its name,
/// if no slot had that name before.
pub proof fn find_gives_back_what_was_added(
    sub: SubDirectory, t: AllocationTable, img: Seq<u8>, r: Seq<u8>, name: Seq<u8>, ext: Seq<u8>,
)
    requires
        sub.wf(t, img),
        t.holds(sub.first_cluster as int),
        free_slot(img, sub.slots(t, img), 0).is_some(),
        r.len() == 32,
        !entry_free(r),
        entry_matches(r, name, ext),
        forall|j: int| 0 <= j < sub.slots(t, img).len() ==> !entry_matches(
            record_at(img, (#[trigger] sub.slots(t, img)[j]) as int), name, ext,
        ),
    ensures
        ({
            let (after, off) = sub.written(t, img, r);
            &&& off.is_some()
            &&& sub.wf(t, after)
            &&& first_match(sub.listing(t, after), name, ext) == Some((r, off.unwrap()))
        }),
{
    subdirectory_slots_are_apart(sub, t, img);
    let slots = sub.slots(t, img);
    let (after, off) = sub.written(t, img, r);
    let k = lemma_free_slot_index(img, slots, 0);
    assert(slots[k] >= t.data_offset);
    assert(after.len() == img.len());
    assert(same_table(img, after, t)) by {
        assert forall|i: int| t.table_offset <= i < table_end(t) implies #[trigger] img[i] == after[i] by {}
    }
    lemma_same_chain(img, after, t, sub.first_cluster as int);
    written_entry_is_found(img, slots, r, name, ext);
}

} // verus!
