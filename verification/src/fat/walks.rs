//! What holds of paths: how they are taken apart, and where they lead.
use vstd::prelude::*;

use crate::fat::dir::{
    first_match, last_index, name_parts, padded, padded_upper, record_at, root_listing, sub_listing,
    AnyDirectory, RootDirectory, SubDirectory,
};
use crate::fat::entry::{entry_free, entry_matches};
use crate::fat::path::{
    components, is_separator, leaf_cut, leaf_of, next_separator, parent_of, resolved, walk, PathError,
};
use crate::fat::table::AllocationTable;
use crate::text::upper;

verus! {

/// The bytes hold no slash and no backslash.
pub open spec fn one_name(s: Seq<u8>) -> bool {
    forall|i: int| 0 <= i < s.len() ==> #[trigger] s[i] != 0x2f && s[i] != 0x5c
}

/// A path is walked name by name: first the names of its beginning, then, from where they
/// lead, the others. Where the beginning leads nowhere, neither does the whole.
pub proof fn walks_can_be_joined(
    img: Seq<u8>, t: AllocationTable, d: AnyDirectory, a: Seq<Seq<u8>>, b: Seq<Seq<u8>>,
)
    ensures
        walk(img, t, d, a + b) == (match walk(img, t, d, a) {
            Ok(e) => walk(img, t, e, b),
            Err(e) => Err(e),
        }),
        walk(img, t, d, Seq::empty()) == Ok::<AnyDirectory, PathError>(d),
    decreases a.len(),
{
    if a.len() == 0 {
        assert(a + b =~= b);
    } else {
        assert((a + b).drop_first() =~= a.drop_first() + b);
        if a[0].len() == 0 {
            walks_can_be_joined(img, t, d, a.drop_first(), b);
        } else if let Ok(next) = crate::fat::path::step(img, t, d, a[0]) {
            walks_can_be_joined(img, t, next, a.drop_first(), b);
        }
    }
}

/// A name leads to the directory whose entry has that name: its first cluster stands in the
/// entry. A name that no entry has, or the name of a file, leads nowhere. An empty name leads
/// nowhere else.
pub proof fn one_name_is_one_step(
    img: Seq<u8>, t: AllocationTable, d: AnyDirectory, name: Seq<u8>,
)
    ensures
        name.len() == 0 ==> walk(img, t, d, seq![name]) == Ok::<AnyDirectory, PathError>(d),
        name.len() > 0 ==> match d.found(t, img, name) {
            None => walk(img, t, d, seq![name]) == Err::<AnyDirectory, PathError>(
                PathError::NotFound,
            ),
            Some((r, _)) => {
                &&& r[11] & 0x10 == 0 ==> walk(img, t, d, seq![name]) == Err::<
                    AnyDirectory,
                    PathError,
                >(PathError::NotFound)
                &&& r[11] & 0x10 != 0 ==> {
                    &&& walk(img, t, d, seq![name]) matches Ok(AnyDirectory::Sub(sub))
                    &&& sub.first_cluster == r[26] + r[27] * 256
                }
            },
        },
{
    reveal_with_fuel(walk, 2);
    assert(seq![name].drop_first() =~= Seq::empty());
    assert(seq![name][0] == name);
}

proof fn lemma_separators(s: Seq<u8>, i: int)
    requires
        0 <= i <= s.len(),
    ensures
        i <= next_separator(s, i) <= s.len(),
        forall|k: int| i <= k < next_separator(s, i) ==> !is_separator(#[trigger] s[k]),
        next_separator(s, i) < s.len() ==> is_separator(s[next_separator(s, i)]),
    decreases s.len() - i,
{
    if i < s.len() && !is_separator(s[i]) {
        lemma_separators(s, i + 1);
    }
}

proof fn lemma_components_from(p: Seq<u8>, sep: u8, name: Seq<u8>, i: int)
    requires
        0 <= i <= p.len(),
        sep == 0x2f || sep == 0x5c,
        one_name(name),
    ensures
        components(p + seq![sep] + name, i) == components(p, i).push(name),
    decreases p.len() - i,
{
    let s = p + seq![sep] + name;
    lemma_separators(s, i);
    lemma_separators(p, i);
    let k = next_separator(p, i);
    let m = next_separator(s, i);
    assert(s[p.len() as int] == sep);
    assert forall|j: int| 0 <= j < p.len() implies #[trigger] s[j] == p[j] by {}
    if m < k {
        assert(is_separator(s[m]));
        assert(!is_separator(p[m]));
    }
    if k < m {
        assert(!is_separator(s[k]));
        if k < p.len() {
            assert(is_separator(p[k]));
        }
    }
    assert(m == k);
    assert(s.subrange(i, k) =~= p.subrange(i, k));
    if k < p.len() {
        lemma_components_from(p, sep, name, k + 1);
        assert(components(s, i) =~= components(p, i).push(name));
    } else {
        let after = p.len() + 1;
        lemma_separators(s, after as int);
        let z = next_separator(s, after as int);
        if z < s.len() {
            assert(s[z] == name[z - after]);
        }
        assert(s.subrange(after as int, s.len() as int) =~= name);
        assert(components(s, after as int) =~= seq![name]);
        assert(components(s, i) =~= components(p, i).push(name));
    }
}

/// The names of a path are what slashes and backslashes part: a name by itself is one, and
/// after a path and a separator comes one more.
pub proof fn separators_part_names(p: Seq<u8>, sep: u8, name: Seq<u8>)
    requires
        sep == 0x2f || sep == 0x5c,
        one_name(name),
    ensures
        components(name, 0) == seq![name],
        components(p + seq![sep] + name, 0) == components(p, 0).push(name),
{
    lemma_components_from(p, sep, name, 0);
    lemma_separators(name, 0);
    let k = next_separator(name, 0);
    if k < name.len() {
        assert(name[k] != 0x2f);
    }
    assert(name.subrange(0, name.len() as int) =~= name);
}

proof fn lemma_cut(p: Seq<u8>, sep: u8, name: Seq<u8>)
    requires
        sep == 0x2f || sep == 0x5c,
        one_name(name),
    ensures
        leaf_cut(p + seq![sep] + name) == Some(p.len() as int),
        leaf_cut(name) is None,
    decreases name.len(),
{
    let s = p + seq![sep] + name;
    if name.len() == 0 {
        assert(s.last() == sep);
    } else {
        assert(name.last() == name[name.len() - 1]);
        assert(s.last() == name.last());
        assert forall|i: int| 0 <= i < name.drop_last().len() implies #[trigger] name.drop_last()[i]
            != 0x2f && name.drop_last()[i] != 0x5c by {
            assert(name[i] != 0x2f);
        }
        lemma_cut(p, sep, name.drop_last());
        assert(s.drop_last() =~= p + seq![sep] + name.drop_last());
    }
}

/// The last name of a path is its leaf, what stands before its separator the parent.
pub proof fn the_last_name_is_the_leaf(p: Seq<u8>, sep: u8, leaf: Seq<u8>)
    requires
        sep == 0x2f || sep == 0x5c,
        one_name(leaf),
    ensures
        leaf_of(p + seq![sep] + leaf) == leaf,
        parent_of(p + seq![sep] + leaf) == p,
        leaf_of(leaf) == leaf,
        parent_of(leaf).len() == 0,
{
    let s = p + seq![sep] + leaf;
    lemma_cut(p, sep, leaf);
    assert(leaf_of(s) =~= leaf);
    assert(parent_of(s) =~= p);
}

/// A path leads to the directory of its parent, found from the root name by name. A name by
/// itself lies in the root; a path without a last name leads nowhere.
pub proof fn paths_lead_to_their_parent(
    img: Seq<u8>, t: AllocationTable, root: RootDirectory, p: Seq<u8>, sep: u8, leaf: Seq<u8>,
)
    requires
        sep == 0x2f || sep == 0x5c,
        one_name(leaf),
    ensures
        leaf.len() > 0 ==> resolved(img, t, root, leaf) == Ok::<(AnyDirectory, Seq<u8>), PathError>(
            (AnyDirectory::Root(root), leaf),
        ),
        leaf.len() > 0 ==> resolved(img, t, root, p + seq![sep] + leaf) == (match walk(
            img, t, AnyDirectory::Root(root), components(p, 0),
        ) {
            Ok(d) => Ok((d, leaf)),
            Err(e) => Err(e),
        }),
        leaf.len() == 0 ==> resolved(img, t, root, p + seq![sep] + leaf) == Err::<
            (AnyDirectory, Seq<u8>),
            PathError,
        >(PathError::InvalidArgument),
{
    the_last_name_is_the_leaf(p, sep, leaf);
    if p.len() == 0 {
        separators_part_names(p, sep, p);
        one_name_is_one_step(img, t, AnyDirectory::Root(root), p);
    }
}

/// What lies in a directory of another lies one step below what lies in that: where `p` and a
/// leaf lead to a directory, `p`, a name and the leaf lead to its subdirectory of that name,
/// and nowhere where it has none.
pub proof fn every_name_goes_one_deeper(
    img: Seq<u8>, t: AllocationTable, root: RootDirectory, p: Seq<u8>, name: Seq<u8>, leaf: Seq<u8>,
    sep: u8, sep2: u8,
)
    requires
        sep == 0x2f || sep == 0x5c,
        sep2 == 0x2f || sep2 == 0x5c,
        one_name(name),
        name.len() > 0,
        one_name(leaf),
        leaf.len() > 0,
    ensures
        ({
            let deep = resolved(img, t, root, p + seq![sep] + name + seq![sep2] + leaf);
            match resolved(img, t, root, p + seq![sep] + leaf) {
                Err(e) => deep == Err::<(AnyDirectory, Seq<u8>), PathError>(e),
                Ok((d, _)) => match d.found(t, img, name) {
                    Some((r, _)) if r[11] & 0x10 != 0 => {
                        &&& deep matches Ok((AnyDirectory::Sub(sub), last))
                        &&& sub.first_cluster == r[26] + r[27] * 256
                        &&& last == leaf
                    },
                    _ => deep == Err::<(AnyDirectory, Seq<u8>), PathError>(PathError::NotFound),
                },
            }
        }),
{
    let dir = AnyDirectory::Root(root);
    let q = p + seq![sep] + name;
    paths_lead_to_their_parent(img, t, root, p, sep, leaf);
    paths_lead_to_their_parent(img, t, root, q, sep2, leaf);
    separators_part_names(p, sep, name);
    assert(components(p, 0).push(name) =~= components(p, 0) + seq![name]);
    walks_can_be_joined(img, t, dir, components(p, 0), seq![name]);
    match walk(img, t, dir, components(p, 0)) {
        Ok(d) => one_name_is_one_step(img, t, d, name),
        Err(_) => {},
    }
}

proof fn lemma_last_index(base: Seq<u8>, b: u8, ext: Seq<u8>)
    requires
        !ext.contains(b),
    ensures
        last_index(base + seq![b] + ext, b) == Some(base.len() as int),
        last_index(ext, b) is None,
    decreases ext.len(),
{
    let s = base + seq![b] + ext;
    if ext.len() > 0 {
        assert(ext[ext.len() - 1] == ext.last());
        assert(!ext.drop_last().contains(b)) by {
            if ext.drop_last().contains(b) {
                let k = choose|k: int| 0 <= k < ext.drop_last().len() && ext.drop_last()[k] == b;
                assert(ext[k] == b);
            }
        }
        lemma_last_index(base, b, ext.drop_last());
        assert(s.last() == ext.last());
        assert(s.drop_last() =~= base + seq![b] + ext.drop_last());
    } else {
        assert(s.last() == b);
    }
}

/// A name is parted at its last dot.
pub proof fn the_last_dot_parts_a_name(base: Seq<u8>, ext: Seq<u8>)
    requires
        !ext.contains(0x2e),
    ensures
        name_parts(base + seq![0x2eu8] + ext) == (base, ext),
        name_parts(ext) == (ext, Seq::<u8>::empty()),
{
    lemma_last_index(base, 0x2e, ext);
    let s = base + seq![0x2eu8] + ext;
    assert(s.subrange(0, base.len() as int) =~= base);
    assert(s.subrange(base.len() + 1int, s.len() as int) =~= ext);
}

proof fn lemma_first_match(l: Seq<(Seq<u8>, u32)>, name: Seq<u8>, ext: Seq<u8>) -> (k: int)
    ensures
        first_match(l, name, ext) is Some ==> 0 <= k < l.len() && first_match(l, name, ext) == Some(
            l[k],
        ) && entry_matches(l[k].0, name, ext) && forall|j: int|
            0 <= j < k ==> !entry_matches((#[trigger] l[j]).0, name, ext),
        first_match(l, name, ext) is None ==> forall|j: int|
            0 <= j < l.len() ==> !entry_matches((#[trigger] l[j]).0, name, ext),
    decreases l.len(),
{
    if l.len() == 0 || entry_matches(l[0].0, name, ext) {
        0
    } else {
        let rest = l.drop_first();
        let k = lemma_first_match(rest, name, ext);
        assert forall|j: int| 0 < j < l.len() implies (#[trigger] l[j]) == rest[j - 1] by {}
        k + 1
    }
}

proof fn lemma_sub_listed(img: Seq<u8>, slots: Seq<u32>, i: int, x: int) -> (k: int)
    requires
        0 <= i,
        0 <= x < sub_listing(img, slots, i).len(),
    ensures
        i <= k < slots.len(),
        sub_listing(img, slots, i)[x] == (record_at(img, slots[k] as int), slots[k]),
        !entry_free(record_at(img, slots[k] as int)),
    decreases slots.len() - i,
{
    if record_at(img, slots[i] as int)[0] == 0xe5 {
        lemma_sub_listed(img, slots, i + 1, x)
    } else if x == 0 {
        i
    } else {
        lemma_sub_listed(img, slots, i + 1, x - 1)
    }
}

proof fn lemma_sub_lists(img: Seq<u8>, slots: Seq<u32>, i: int, k: int) -> (x: int)
    requires
        0 <= i <= k < slots.len(),
        !entry_free(record_at(img, slots[k] as int)),
        forall|m: int| i <= m < k ==> record_at(img, (#[trigger] slots[m]) as int)[0] != 0x00,
    ensures
        0 <= x < sub_listing(img, slots, i).len(),
        sub_listing(img, slots, i)[x] == (record_at(img, slots[k] as int), slots[k]),
    decreases k - i,
{
    if i == k {
        0
    } else {
        assert(record_at(img, slots[i] as int)[0] != 0x00);
        let x = lemma_sub_lists(img, slots, i + 1, k);
        if record_at(img, slots[i] as int)[0] == 0xe5 { x } else { x + 1 }
    }
}

proof fn lemma_root_listed(img: Seq<u8>, slots: Seq<u32>, i: int, x: int)
    requires
        0 <= i,
        0 <= x < root_listing(img, slots, i).len(),
    ensures
        i + x + 1 < slots.len(),
        root_listing(img, slots, i)[x] == (record_at(img, slots[i + x] as int), slots[i + x]),
        !entry_free(record_at(img, slots[i + x] as int)),
    decreases slots.len() - i,
{
    if x > 0 {
        lemma_root_listed(img, slots, i + 1, x - 1);
    }
}

proof fn lemma_root_lists(img: Seq<u8>, slots: Seq<u32>, i: int, k: int)
    requires
        0 <= i <= k,
        k + 1 < slots.len(),
        forall|m: int| i <= m <= k ==> !entry_free(record_at(img, (#[trigger] slots[m]) as int)),
    ensures
        k - i < root_listing(img, slots, i).len(),
        root_listing(img, slots, i)[k - i] == (record_at(img, slots[k] as int), slots[k]),
    decreases k - i,
{
    assert(!entry_free(record_at(img, slots[i] as int)));
    if i < k {
        lemma_root_lists(img, slots, i + 1, k);
    }
}

/// The record of an entry has a name in eight and three letters, in either case: those of the
/// base and the extension as far as there is room, and spaces behind them.
pub open spec fn named(r: Seq<u8>, base: Seq<u8>, ext: Seq<u8>) -> bool {
    &&& forall|i: int|
        0 <= i < 8 ==> upper(#[trigger] r[i]) == (if i < base.len() { upper(base[i]) } else { 0x20 })
    &&& forall|i: int|
        8 <= i < 11 ==> upper(#[trigger] r[i]) == (if i - 8 < ext.len() {
            upper(ext[i - 8])
        } else {
            0x20
        })
}

proof fn lemma_named(r: Seq<u8>, base: Seq<u8>, ext: Seq<u8>)
    ensures
        entry_matches(r, padded(base, 8), padded(ext, 3)) == named(r, base, ext),
        entry_matches(r, padded_upper(base, 8), padded_upper(ext, 3)) == named(r, base, ext),
{
    let a = padded(base, 8);
    let b = padded(ext, 3);
    let c = padded_upper(base, 8);
    let d = padded_upper(ext, 3);
    if named(r, base, ext) {
        assert forall|i: int| 0 <= i < 8 implies crate::fat::entry::same_letter(#[trigger] r[i], a[i])
            && crate::fat::entry::same_letter(r[i], c[i]) by {}
        assert forall|i: int| 0 <= i < 3 implies crate::fat::entry::same_letter(
            r[8 + i], #[trigger] b[i],
        ) by {
            assert(upper(r[8 + i]) == (if i < ext.len() { upper(ext[i]) } else { 0x20 }));
        }
        assert forall|i: int| 0 <= i < 3 implies crate::fat::entry::same_letter(
            r[8 + i], #[trigger] d[i],
        ) by {
            assert(upper(r[8 + i]) == (if i < ext.len() { upper(ext[i]) } else { 0x20 }));
        }
    }
    if entry_matches(r, a, b) {
        assert forall|i: int| 8 <= i < 11 implies upper(#[trigger] r[i]) == (if i - 8 < ext.len() {
            upper(ext[i - 8])
        } else {
            0x20
        }) by {
            assert(crate::fat::entry::same_letter(r[8 + (i - 8)], b[i - 8]));
        }
        assert(named(r, base, ext));
    }
    if entry_matches(r, c, d) {
        assert forall|i: int| 8 <= i < 11 implies upper(#[trigger] r[i]) == (if i - 8 < ext.len() {
            upper(ext[i - 8])
        } else {
            0x20
        }) by {
            assert(crate::fat::entry::same_letter(r[8 + (i - 8)], d[i - 8]));
        }
        assert(named(r, base, ext));
    }
}

/// What a name finds in a directory is the record in one of its slots, in use, with that name.
/// A name without a dot is a base without an extension.
pub proof fn names_find_what_has_them(
    d: AnyDirectory, t: AllocationTable, img: Seq<u8>, base: Seq<u8>, ext: Seq<u8>, name: Seq<u8>,
) -> (k: int)
    requires
        !ext.contains(0x2e),
        name == base + seq![0x2eu8] + ext || (name == base && ext.len() == 0 && !base.contains(0x2e)),
        d.found(t, img, name) is Some,
    ensures
        0 <= k < d.slots(t, img).len(),
        ({
            let (r, off) = d.found(t, img, name).unwrap();
            &&& off == d.slots(t, img)[k]
            &&& r == img.subrange(off as int, off + 32)
            &&& r[0] != 0x00 && r[0] != 0xe5
            &&& named(r, base, ext)
        }),
{
    the_last_dot_parts_a_name(base, ext);
    if name == base {
        the_last_dot_parts_a_name(ext, base);
        assert(ext =~= Seq::empty());
    }
    let (r, off) = d.found(t, img, name).unwrap();
    lemma_named(r, base, ext);
    match d {
        AnyDirectory::Root(root) => {
            let l = root_listing(img, root.slots(), 0);
            let x = lemma_first_match(l, padded(base, 8), padded(ext, 3));
            lemma_root_listed(img, root.slots(), 0, x);
            x
        },
        AnyDirectory::Sub(sub) => {
            let l = sub_listing(img, sub.slots(t, img), 0);
            let x = lemma_first_match(l, padded_upper(base, 8), padded_upper(ext, 3));
            lemma_sub_listed(img, sub.slots(t, img), 0, x)
        },
    }
}

/// An entry of a subdirectory is found under its name, as long as no slot before it was never
/// used; where a name finds nothing there is no such entry.
pub proof fn entries_of_a_subdirectory_are_found(
    sub: SubDirectory, t: AllocationTable, img: Seq<u8>, base: Seq<u8>, ext: Seq<u8>, k: int,
)
    requires
        !ext.contains(0x2e),
        0 <= k < sub.slots(t, img).len(),
        ({
            let r = record_at(img, sub.slots(t, img)[k] as int);
            r[0] != 0x00 && r[0] != 0xe5 && named(r, base, ext)
        }),
        forall|m: int|
            0 <= m < k ==> record_at(img, (#[trigger] sub.slots(t, img)[m]) as int)[0] != 0x00,
    ensures
        AnyDirectory::Sub(sub).found(t, img, base + seq![0x2eu8] + ext) is Some,
{
    the_last_dot_parts_a_name(base, ext);
    let slots = sub.slots(t, img);
    let l = sub_listing(img, slots, 0);
    lemma_named(record_at(img, slots[k] as int), base, ext);
    let x = lemma_sub_lists(img, slots, 0, k);
    let y = lemma_first_match(l, padded_upper(base, 8), padded_upper(ext, 3));
    if first_match(l, padded_upper(base, 8), padded_upper(ext, 3)) is None {
        assert(!entry_matches(l[x].0, padded_upper(base, 8), padded_upper(ext, 3)));
    }
}

/// An entry of the root directory is found under its name, as long as no slot before it is
/// free and it is not in the last slot.
pub proof fn entries_of_the_root_are_found(
    root: RootDirectory, t: AllocationTable, img: Seq<u8>, base: Seq<u8>, ext: Seq<u8>, k: int,
)
    requires
        !ext.contains(0x2e),
        0 <= k,
        k + 1 < root.max_entries,
        named(record_at(img, root.slots()[k] as int), base, ext),
        forall|m: int|
            0 <= m <= k ==> record_at(img, (#[trigger] root.slots()[m]) as int)[0] != 0x00
                && record_at(img, root.slots()[m] as int)[0] != 0xe5,
    ensures
        AnyDirectory::Root(root).found(t, img, base + seq![0x2eu8] + ext) is Some,
{
    the_last_dot_parts_a_name(base, ext);
    let slots = root.slots();
    let l = root_listing(img, slots, 0);
    lemma_named(record_at(img, slots[k] as int), base, ext);
    lemma_root_lists(img, slots, 0, k);
    let y = lemma_first_match(l, padded(base, 8), padded(ext, 3));
    if first_match(l, padded(base, 8), padded(ext, 3)) is None {
        assert(!entry_matches(l[k].0, padded(base, 8), padded(ext, 3)));
    }
}

} // verus!
