//! Paths: from a string to a directory and a leaf name.
use vstd::prelude::*;

use crate::fat::dir::{AnyDirectory, DirectoryType, Entity, RootDirectory, SubDirectory};
use crate::fat::disk::{DiskAccess, DiskIO};
use crate::fat::entry::{entry_cluster, entry_is_dir};
use crate::fat::table::AllocationTable;
use crate::text::sub_bytes;

verus! {

#[derive(Clone, Copy, PartialEq, Eq, Structural, Debug)]
pub enum PathError {
    InvalidArgument,
    NotFound,
}

pub open spec fn is_separator(b: u8) -> bool {
    b == 0x2f || b == 0x5c
}

/// The first separator from `i` on, or the end.
pub open spec fn next_separator(s: Seq<u8>, i: int) -> int
    decreases s.len() - i,
{
    if i >= s.len() {
        s.len() as int
    } else if is_separator(s[i]) {
        i
    } else {
        next_separator(s, i + 1)
    }
}

/// The parts of a path between separators, from byte `i` on.
pub open spec fn components(s: Seq<u8>, i: int) -> Seq<Seq<u8>>
    decreases s.len() - i,
{
    if i < 0 || i > s.len() {
        Seq::empty()
    } else {
        let k = next_separator(s, i);
        if i <= k < s.len() {
            seq![s.subrange(i, k)] + components(s, k + 1)
        } else {
            seq![s.subrange(i, s.len() as int)]
        }
    }
}

/// Where the leaf of a path is cut off: the last separator.
pub open spec fn leaf_cut(path: Seq<u8>) -> Option<int>
    decreases path.len(),
{
    if path.len() == 0 {
        None
    } else if is_separator(path.last()) {
        Some(path.len() - 1)
    } else {
        leaf_cut(path.drop_last())
    }
}

pub open spec fn leaf_of(path: Seq<u8>) -> Seq<u8> {
    match leaf_cut(path) {
        Some(i) => path.subrange(i + 1, path.len() as int),
        None => path,
    }
}

pub open spec fn parent_of(path: Seq<u8>) -> Seq<u8> {
    match leaf_cut(path) {
        Some(i) => path.subrange(0, i),
        None => Seq::empty(),
    }
}

/// One step down: the subdirectory with a name.
pub open spec fn step(img: Seq<u8>, t: AllocationTable, d: AnyDirectory, name: Seq<u8>) -> Result<
    AnyDirectory,
    PathError,
> {
    match d.found(t, img, name) {
        Some((r, _)) if entry_is_dir(r) => Ok(
            AnyDirectory::Sub(SubDirectory { first_cluster: entry_cluster(r) as u32 }),
        ),
        _ => Err(PathError::NotFound),
    }
}

/// The directory that a list of names leads to; empty names are passed over.
pub open spec fn walk(img: Seq<u8>, t: AllocationTable, d: AnyDirectory, names: Seq<Seq<u8>>) -> Result<
    AnyDirectory,
    PathError,
>
    decreases names.len(),
{
    if names.len() == 0 {
        Ok(d)
    } else if names[0].len() == 0 {
        walk(img, t, d, names.drop_first())
    } else {
        match step(img, t, d, names[0]) {
            Ok(next) => walk(img, t, next, names.drop_first()),
            Err(e) => Err(e),
        }
    }
}

/// Every directory on the way can be searched.
pub open spec fn walk_wf(img: Seq<u8>, t: AllocationTable, d: AnyDirectory, names: Seq<Seq<u8>>) -> bool
    decreases names.len(),
{
    if names.len() == 0 {
        true
    } else if names[0].len() == 0 {
        walk_wf(img, t, d, names.drop_first())
    } else {
        d.wf(t, img) && match step(img, t, d, names[0]) {
            Ok(next) => walk_wf(img, t, next, names.drop_first()),
            Err(_) => true,
        }
    }
}

/// The parent directory and the leaf name of a path.
pub open spec fn resolved(img: Seq<u8>, t: AllocationTable, root: RootDirectory, path: Seq<u8>) -> Result<
    (AnyDirectory, Seq<u8>),
    PathError,
> {
    if leaf_of(path).len() == 0 {
        Err(PathError::InvalidArgument)
    } else if parent_of(path).len() == 0 {
        Ok((AnyDirectory::Root(root), leaf_of(path)))
    } else {
        match walk(img, t, AnyDirectory::Root(root), components(parent_of(path), 0)) {
            Ok(d) => Ok((d, leaf_of(path))),
            Err(e) => Err(e),
        }
    }
}

fn last_separator(s: &[u8]) -> (r: Option<usize>)
    ensures
        r.is_some() == leaf_cut(s@).is_some(),
        r matches Some(i) ==> i < s@.len() && leaf_cut(s@) == Some(i as int),
{
    let mut i: usize = s.len();
    assert(s@.subrange(0, i as int) =~= s@);
    while i > 0
        invariant
            i <= s@.len(),
            leaf_cut(s@) == leaf_cut(s@.subrange(0, i as int)),
        decreases i,
    {
        i -= 1;
        let ghost t = s@.subrange(0, i + 1);
        assert(t.drop_last() =~= s@.subrange(0, i as int));
        assert(t.last() == s@[i as int]);
        if s[i] == 0x2f || s[i] == 0x5c {
            return Some(i);
        }
    }
    None
}

proof fn lemma_leaf_cut(path: Seq<u8>)
    ensures
        match leaf_cut(path) {
            Some(i) => 0 <= i < path.len() && is_separator(path[i]) && forall|k: int|
                i < k < path.len() ==> !is_separator(#[trigger] path[k]),
            None => forall|k: int| 0 <= k < path.len() ==> !is_separator(#[trigger] path[k]),
        },
    decreases path.len(),
{
    if path.len() > 0 && !is_separator(path.last()) {
        let front = path.drop_last();
        lemma_leaf_cut(front);
        let from = match leaf_cut(front) {
            Some(i) => i,
            None => -1,
        };
        assert forall|k: int| from < k < path.len() implies !is_separator(#[trigger] path[k]) by {
            if k < front.len() {
                assert(front[k] == path[k]);
            }
        }
    }
}

/// The leaf of a path is one component: no separator is in it. The path is its parent, a
/// separator and its leaf, or its leaf alone.
pub proof fn leaf_is_one_component(path: Seq<u8>)
    ensures
        forall|k: int| 0 <= k < leaf_of(path).len() ==> !is_separator(#[trigger] leaf_of(path)[k]),
        match leaf_cut(path) {
            Some(i) => path == parent_of(path).push(path[i]) + leaf_of(path),
            None => path == leaf_of(path),
        },
{
    lemma_leaf_cut(path);
    match leaf_cut(path) {
        Some(i) => {
            assert(path =~= parent_of(path).push(path[i]) + leaf_of(path));
            assert forall|k: int| 0 <= k < leaf_of(path).len() implies !is_separator(
                #[trigger] leaf_of(path)[k],
            ) by {
                assert(leaf_of(path)[k] == path[i + 1 + k]);
            }
        },
        None => {},
    }
}

proof fn lemma_next_separator(s: Seq<u8>, i: int)
    requires
        0 <= i <= s.len(),
    ensures
        i <= next_separator(s, i) <= s.len(),
    decreases s.len() - i,
{
    if i < s.len() && !is_separator(s[i]) {
        lemma_next_separator(s, i + 1);
    }
}

/// Find the parent directory of a path. The result is the directory and the leaf.
pub fn resolve_path<D: DiskIO>(
    path: &[u8], root: RootDirectory, table: &AllocationTable, disk: &mut DiskAccess<D>,
) -> (r: Result<(AnyDirectory, Vec<u8>), PathError>)
    requires
        leaf_of(path@).len() > 0 && parent_of(path@).len() > 0 ==> walk_wf(
            old(disk).image(), *table, AnyDirectory::Root(root), components(parent_of(path@), 0),
        ),
    ensures
        final(disk).image() == old(disk).image(),
        match (r, resolved(old(disk).image(), *table, root, path@)) {
            (Ok((d, leaf)), Ok((sd, sleaf))) => d == sd && leaf@ == sleaf,
            (Err(e), Err(se)) => e == se,
            _ => false,
        },
{
    if path.len() == 0 {
        return Err(PathError::InvalidArgument);
    }
    let n: usize = path.len();
    let sep: Option<usize> = last_separator(path);
    let (parent_len, leaf_start): (usize, usize) = match sep {
        Some(i) => (i, i + 1),
        None => (0, 0),
    };
    let ghost parent = parent_of(path@);
    assert(parent =~= path@.subrange(0, parent_len as int));
    assert(leaf_of(path@) =~= path@.subrange(leaf_start as int, n as int));
    if leaf_start == n {
        return Err(PathError::InvalidArgument);
    }
    let leaf: Vec<u8> = sub_bytes(path, leaf_start, n);
    let mut current: AnyDirectory = AnyDirectory::Root(root);
    if parent_len == 0 {
        return Ok((current, leaf));
    }
    let ghost img = disk.image();
    let mut start: usize = 0;
    let mut done: bool = false;
    while !done
        invariant
            img == old(disk).image(),
            disk.image() == img,
            parent == parent_of(path@),
            parent == path@.subrange(0, parent_len as int),
            parent_len < n == path@.len(),
            0 < parent_len,
            leaf@ == leaf_of(path@),
            leaf@.len() > 0,
            !done ==> start <= parent_len,
            !done ==> walk_wf(img, *table, current, components(parent, start as int)),
            !done ==> walk(img, *table, AnyDirectory::Root(root), components(parent, 0)) == walk(
                img, *table, current, components(parent, start as int),
            ),
            done ==> walk(img, *table, AnyDirectory::Root(root), components(parent, 0)) == Ok::<
                AnyDirectory,
                PathError,
            >(current),
        decreases (if done { 0 } else { parent_len + 1 - start }), (if done { 0nat } else { 1nat }),
    {
        let mut end: usize = start;
        proof { lemma_next_separator(parent, start as int); }
        while end < parent_len && path[end] != 0x2f && path[end] != 0x5c
            invariant
                start <= end <= parent_len < path@.len(),
                parent == path@.subrange(0, parent_len as int),
                next_separator(parent, start as int) == next_separator(parent, end as int),
            decreases parent_len - end,
        {
            assert(parent[end as int] == path@[end as int]);
            end += 1;
        }
        proof {
            if end < parent_len {
                assert(parent[end as int] == path@[end as int]);
            }
            assert(next_separator(parent, start as int) == end);
        }
        let name: Vec<u8> = sub_bytes(path, start, end);
        let ghost names = components(parent, start as int);
        proof {
            assert(name@ =~= parent.subrange(start as int, end as int));
            assert(names[0] == name@);
            if end < parent_len {
                assert(names.drop_first() =~= components(parent, end + 1));
            } else {
                assert(names.drop_first() =~= Seq::empty());
            }
        }
        if name.len() > 0 {
            match current.find_entry(name.as_slice(), table, disk) {
                Some(Entity::Dir(d)) => {
                    match d.dir_type {
                        DirectoryType::Subdir(entry) => {
                            current = AnyDirectory::Sub(
                                SubDirectory::new(entry.first_file_cluster() as u32),
                            );
                        }
                        DirectoryType::Root(_) => {
                            return Err(PathError::InvalidArgument);
                        }
                    }
                }
                _ => {
                    return Err(PathError::NotFound);
                }
            }
        }
        if end >= parent_len {
            assert(walk(img, *table, current, Seq::empty()) == Ok::<AnyDirectory, PathError>(current));
            done = true;
        } else {
            start = end + 1;
        }
    }
    Ok((current, leaf))
}

} // verus!
