//! Memory for DOS programs: the conventional memory arena and the blocks of high
//! memory.
//!
//! Conventional memory is counted in paragraphs of 16 bytes. A block is a first
//! paragraph, its segment, and a number of paragraphs.
use vstd::prelude::*;

verus! {

pub const ARENA_MAX_BLOCKS: usize = 32;
pub const HIGH_MEM_MAX: usize = 32;

/// The first paragraph above conventional memory.
pub const DOS_MEM_TOP_SEGMENT: u16 = 0xA000;

/// A table of blocks; segment 0 marks a free slot.
pub struct Arena {
    pub blocks: Vec<(u16, u16)>,
    /// The first paragraph that may be given out.
    pub start: u16,
}

/// What an arena is, as a value.
pub struct Blocks {
    pub table: Seq<(u16, u16)>,
    pub start: u16,
}

impl View for Arena {
    type V = Blocks;

    open spec fn view(&self) -> Blocks {
        Blocks { table: self.blocks@, start: self.start }
    }
}

pub open spec fn in_use(b: (u16, u16)) -> bool {
    b.0 != 0
}

pub open spec fn block_end(b: (u16, u16)) -> int {
    b.0 + b.1
}

/// `n` paragraphs from `s` on lie before or behind the block.
pub open spec fn apart(s: int, n: int, b: (u16, u16)) -> bool {
    s + n <= b.0 || block_end(b) <= s
}

/// The first slot of a table that names a segment.
pub open spec fn slot_of(table: Seq<(u16, u16)>, segment: u16) -> Option<int>
    decreases table.len(),
{
    if table.len() == 0 {
        None
    } else {
        match slot_of(table.drop_last(), segment) {
            Some(i) => Some(i),
            None => if table.last().0 == segment { Some(table.len() - 1) } else { None },
        }
    }
}

pub proof fn lemma_slot_of(table: Seq<(u16, u16)>, segment: u16)
    ensures
        slot_of(table, segment) matches Some(i) ==> 0 <= i < table.len() && table[i].0 == segment
            && forall|j: int| 0 <= j < i ==> (#[trigger] table[j]).0 != segment,
        slot_of(table, segment).is_none() ==> forall|j: int| 0 <= j < table.len() ==>
            (#[trigger] table[j]).0 != segment,
    decreases table.len(),
{
    if table.len() > 0 {
        lemma_slot_of(table.drop_last(), segment);
        assert forall|j: int| 0 <= j < table.len() - 1 implies table.drop_last()[j] == table[j] by {}
    }
}

impl Blocks {
    /// Blocks end within the conventional memory.
    pub open spec fn wf(&self) -> bool {
        &&& self.table.len() == 32
        &&& forall|i: int| 0 <= i < 32 ==> block_end(#[trigger] self.table[i]) <= 0xA000
    }

    /// No two blocks overlap.
    pub open spec fn disjoint(&self) -> bool {
        forall|i: int, j: int| 0 <= i < self.table.len() && 0 <= j < self.table.len() && i != j
            && in_use(#[trigger] self.table[i]) && in_use(#[trigger] self.table[j]) ==> apart(
            self.table[i].0 as int, self.table[i].1 as int, self.table[j],
        )
    }

    /// `n` paragraphs from `s` on are free.
    pub open spec fn free_at(&self, s: int, n: int) -> bool {
        &&& self.start <= s
        &&& s + n <= 0xA000
        &&& forall|i: int| 0 <= i < self.table.len() && in_use(#[trigger] self.table[i]) ==> apart(
            s, n, self.table[i],
        )
    }

    /// `s` is the lowest segment with `n` free paragraphs.
    pub open spec fn lowest_free(&self, s: int, n: int) -> bool {
        self.free_at(s, n) && forall|r: int| r < s ==> !#[trigger] self.free_at(r, n)
    }

    pub open spec fn has_room(&self, n: int) -> bool {
        exists|s: int| #[trigger] self.free_at(s, n)
    }

    /// `n` is the size of the largest free run.
    pub open spec fn largest_run(&self, n: int) -> bool {
        &&& n == 0 || self.has_room(n)
        &&& forall|m: int| m > n ==> !#[trigger] self.has_room(m)
    }

    pub open spec fn with_block(&self, i: int, b: (u16, u16)) -> Blocks {
        Blocks { table: self.table.update(i, b), start: self.start }
    }

    /// The block at a segment can have `n` paragraphs where it is.
    pub open spec fn can_resize(&self, segment: u16, n: int) -> bool {
        slot_of(self.table, segment) matches Some(i) && segment + n <= 0xA000 && forall|j: int|
            0 <= j < self.table.len() && j != i && in_use(#[trigger] self.table[j]) ==> segment + n
                <= self.table[j].0 || block_end(self.table[j]) <= segment
    }
}

/// The arena after `n` paragraphs were asked for, and the segment given out.
pub open spec fn arena_alloc(b: Blocks, n: u16) -> (Blocks, Option<u16>) {
    match slot_of(b.table, 0) {
        Some(i) if b.has_room(n as int) => {
            let s = choose|s: u16| #[trigger] b.lowest_free(s as int, n as int);
            (b.with_block(i, (s, n)), Some(s))
        },
        _ => (b, None),
    }
}

/// The arena after a block was freed, and whether there was one.
pub open spec fn arena_free(b: Blocks, segment: u16) -> (Blocks, bool) {
    match slot_of(b.table, segment) {
        Some(i) => (b.with_block(i, (0, 0)), true),
        None => (b, false),
    }
}

impl Blocks {
    /// A block begins at a segment.
    pub open spec fn tracks(&self, segment: u16) -> bool {
        segment != 0 && slot_of(self.table, segment).is_some()
    }
}

/// The arena after a block was resized, and whether it could be.
pub open spec fn arena_resize(b: Blocks, segment: u16, n: u16) -> (Blocks, bool) {
    if b.can_resize(segment, n as int) {
        (b.with_block(slot_of(b.table, segment).unwrap(), (segment, n)), true)
    } else {
        (b, false)
    }
}

/// The size of the largest free run.
pub open spec fn arena_largest(b: Blocks) -> u16 {
    choose|n: u16| #[trigger] b.largest_run(n as int)
}

/// There is one lowest free segment, and one largest size.
proof fn lemma_unique(b: Blocks, s: u16, n: u16)
    ensures
        b.lowest_free(s as int, n as int) ==> s == (choose|t: u16| #[trigger] b.lowest_free(
            t as int, n as int,
        )),
        b.largest_run(n as int) ==> n == arena_largest(b),
{
    if b.lowest_free(s as int, n as int) {
        let t = choose|t: u16| #[trigger] b.lowest_free(t as int, n as int);
        assert(b.lowest_free(t as int, n as int));
        if t < s {
            assert(!b.free_at(t as int, n as int));
        }
        if s < t {
            assert(!b.free_at(s as int, n as int));
        }
    }
    if b.largest_run(n as int) {
        let t = arena_largest(b);
        assert(b.largest_run(t as int));
        if t < n {
            assert(b.has_room(n as int));
        }
        if n < t {
            assert(b.has_room(t as int));
        }
    }
}

impl Arena {
    pub open spec fn wf(&self) -> bool {
        self@.wf()
    }

    /// An arena without blocks, whose start is not set yet.
    pub fn new() -> (r: Self)
        ensures
            r@.table == Seq::new(32, |i: int| (0u16, 0u16)),
            r@.start == 0,
    {
        let mut blocks: Vec<(u16, u16)> = Vec::new();
        let mut i: usize = 0;
        while i < 32
            invariant
                i <= 32,
                blocks@ =~= Seq::new(i as nat, |k: int| (0u16, 0u16)),
            decreases 32 - i,
        {
            blocks.push((0, 0));
            i += 1;
        }
        Arena { blocks, start: 0 }
    }

    /// Set the first segment that may be given out.
    pub fn dos_arena_set_start(&mut self, segment: u16)
        ensures
            final(self)@ == (Blocks { start: segment, ..old(self)@ }),
    {
        self.start = segment;
    }

    pub fn dos_arena_start(&self) -> (r: u16)
        ensures
            r == self@.start,
    {
        self.start
    }

    fn find(&self, segment: u16) -> (r: Option<usize>)
        ensures
            r.is_some() == slot_of(self@.table, segment).is_some(),
            r matches Some(i) ==> i < self.blocks@.len() && slot_of(self@.table, segment) == Some(i as int)
                && self.blocks@[i as int].0 == segment,
    {
        let mut i: usize = 0;
        proof { lemma_slot_of(self@.table, segment); }
        while i < self.blocks.len()
            invariant
                i <= self.blocks@.len(),
                forall|j: int| 0 <= j < i ==> (#[trigger] self.blocks@[j]).0 != segment,
            decreases self.blocks@.len() - i,
        {
            if self.blocks[i].0 == segment {
                proof { lemma_slot_of(self@.table, segment); }
                return Some(i);
            }
            i += 1;
        }
        proof { lemma_slot_of(self@.table, segment); }
        None
    }

    /// Put a block in the first free slot, if there is one.
    pub fn dos_arena_record(&mut self, segment: u16, paras: u16)
        ensures
            final(self)@ == (match slot_of(old(self)@.table, 0) {
                Some(i) => old(self)@.with_block(i, (segment, paras)),
                None => old(self)@,
            }),
    {
        match self.find(0) {
            Some(i) => {
                self.blocks[i] = (segment, paras);
            }
            None => {}
        }
    }

    /// The lowest segment from `start` on, if any, where `paras` paragraphs lie
    /// apart from all blocks.
    fn first_fit(&self, paras: u16) -> (r: Option<u16>)
        requires
            self.wf(),
        ensures
            r matches Some(s) ==> self@.lowest_free(s as int, paras as int),
            r.is_none() ==> !self@.has_room(paras as int),
    {
        let mut cursor: u16 = self.start;
        let mut i: usize = 0;
        while i < 32
            invariant
                i <= 32,
                self.wf(),
                self.start <= cursor,
                cursor <= 0xA000 || cursor == self.start,
                forall|s: int| s < cursor ==> !#[trigger] self@.free_at(s, paras as int),
                forall|j: int| 0 <= j < i && in_use(#[trigger] self.blocks@[j]) ==> apart(
                    cursor as int, paras as int, self.blocks@[j],
                ),
            decreases 0xFFFF - cursor, 32 - i,
        {
            let (seg, size): (u16, u16) = self.blocks[i];
            assert(block_end(self@.table[i as int]) <= 0xA000);
            let end: u16 = seg + size;
            if seg != 0 && cursor as u32 + paras as u32 > seg as u32 && end > cursor {
                proof {
                    assert forall|s: int| s < end implies !#[trigger] self@.free_at(s, paras as int) by {
                        if s >= cursor && self@.free_at(s, paras as int) {
                            assert(in_use(self@.table[i as int]));
                            assert(apart(s, paras as int, self@.table[i as int]));
                        }
                    }
                }
                cursor = end;
                i = 0;
            } else {
                i += 1;
            }
        }
        if cursor as u32 + paras as u32 > DOS_MEM_TOP_SEGMENT as u32 {
            assert forall|s: int| !#[trigger] self@.free_at(s, paras as int) by {}
            return None;
        }
        assert(self@.free_at(cursor as int, paras as int));
        Some(cursor)
    }

    /// Give out the lowest free run of `paras` paragraphs.
    pub fn dos_arena_alloc(&mut self, paras: u16) -> (r: Option<u16>)
        requires
            old(self).wf(),
        ensures
            final(self).wf(),
            (final(self)@, r) == arena_alloc(old(self)@, paras),
            r matches Some(s) ==> old(self)@.lowest_free(s as int, paras as int),
    {
        let segment: u16 = match self.first_fit(paras) {
            Some(s) => s,
            None => {
                return None;
            }
        };
        proof {
            lemma_unique(self@, segment, paras);
            assert(self@.free_at(segment as int, paras as int));
        }
        match self.find(0) {
            Some(i) => {
                self.blocks[i] = (segment, paras);
                Some(segment)
            }
            None => None,
        }
    }

    /// Free the block at a segment. A free slot counts as a block at segment 0.
    pub fn dos_arena_free(&mut self, segment: u16) -> (r: bool)
        requires
            old(self).wf(),
        ensures
            final(self).wf(),
            (final(self)@, r) == arena_free(old(self)@, segment),
    {
        match self.find(segment) {
            Some(i) => {
                self.blocks[i] = (0, 0);
                true
            }
            None => false,
        }
    }

    /// Whether a block begins at a segment.
    pub fn dos_arena_tracks(&self, segment: u16) -> (r: bool)
        ensures
            r == self@.tracks(segment),
    {
        segment != 0 && self.find(segment).is_some()
    }

    /// The place in the table of a block that can change its size where it is.
    fn find_resizable(&self, segment: u16, new_paras: u16) -> (r: Option<usize>)
        requires
            self.wf(),
        ensures
            r.is_some() == self@.can_resize(segment, new_paras as int),
            r matches Some(i) ==> i < 32 && slot_of(self@.table, segment) == Some(i as int),
    {
        let idx: usize = match self.find(segment) {
            Some(i) => i,
            None => {
                return None;
            }
        };
        let end: u32 = segment as u32 + new_paras as u32;
        if end > DOS_MEM_TOP_SEGMENT as u32 {
            return None;
        }
        let mut i: usize = 0;
        while i < 32
            invariant
                i <= 32,
                self.wf(),
                idx < 32,
                slot_of(self@.table, segment) == Some(idx as int),
                end == segment + new_paras,
                end <= 0xA000,
                forall|j: int| 0 <= j < i && j != idx && in_use(#[trigger] self.blocks@[j]) ==> segment
                    + new_paras <= self.blocks@[j].0 || block_end(self.blocks@[j]) <= segment,
            decreases 32 - i,
        {
            let (seg, size): (u16, u16) = self.blocks[i];
            if i != idx && seg != 0 {
                let other_end: u32 = seg as u32 + size as u32;
                if (segment as u32) < other_end && end > seg as u32 {
                    assert(in_use(self@.table[i as int]));
                    return None;
                }
            }
            i += 1;
        }
        Some(idx)
    }

    /// Whether a block can change its size where it is.
    pub fn dos_arena_can_resize(&self, segment: u16, new_paras: u16) -> (r: bool)
        requires
            self.wf(),
        ensures
            r == arena_resize(self@, segment, new_paras).1,
    {
        self.find_resizable(segment, new_paras).is_some()
    }

    /// Change the size of a block where it is.
    pub fn dos_arena_resize(&mut self, segment: u16, new_paras: u16) -> (r: bool)
        requires
            old(self).wf(),
        ensures
            final(self).wf(),
            (final(self)@, r) == arena_resize(old(self)@, segment, new_paras),
    {
        match self.find_resizable(segment, new_paras) {
            Some(i) => {
                self.blocks[i] = (segment, new_paras);
                true
            }
            None => false,
        }
    }

    /// The end of free room that starts at `c`: the nearest block that ends behind
    /// `c`, or the top of memory.
    fn room_end(&self, c: u16) -> (r: u16)
        requires
            self.wf(),
        ensures
            r <= 0xA000,
            forall|j: int| 0 <= j < 32 && in_use(#[trigger] self.blocks@[j]) && block_end(
                self.blocks@[j],
            ) > c ==> r <= self.blocks@[j].0,
            r == 0xA000 || exists|j: int| 0 <= j < 32 && in_use(#[trigger] self.blocks@[j])
                && block_end(self.blocks@[j]) > c && self.blocks@[j].0 == r,
    {
        let mut limit: u16 = DOS_MEM_TOP_SEGMENT;
        let mut i: usize = 0;
        while i < 32
            invariant
                i <= 32,
                self.wf(),
                limit <= 0xA000,
                forall|j: int| 0 <= j < i && in_use(#[trigger] self.blocks@[j]) && block_end(
                    self.blocks@[j],
                ) > c ==> limit <= self.blocks@[j].0,
                limit == 0xA000 || exists|j: int| 0 <= j < 32 && in_use(#[trigger] self.blocks@[j])
                    && block_end(self.blocks@[j]) > c && self.blocks@[j].0 == limit,
            decreases 32 - i,
        {
            let (seg, size): (u16, u16) = self.blocks[i];
            assert(block_end(self@.table[i as int]) <= 0xA000);
            if seg != 0 && seg + size > c && seg < limit {
                limit = seg;
                assert(in_use(self.blocks@[i as int]));
            }
            i += 1;
        }
        limit
    }

    /// The size of the largest free run, in paragraphs.
    pub fn dos_arena_largest(&self) -> (r: u16)
        requires
            self.wf(),
        ensures
            self@.largest_run(r as int),
            r == arena_largest(self@),
    {
        let first: u16 = self.room_end(self.start).saturating_sub(self.start);
        let mut largest: u16 = first;
        proof {
            if first > 0 {
                assert(self@.free_at(self.start as int, first as int));
            }
        }
        let mut i: usize = 0;
        while i < 32
            invariant
                i <= 32,
                self.wf(),
                largest == 0 || self@.has_room(largest as int),
                forall|m: int| self@.free_at(self.start as int, m) ==> m <= largest,
                forall|j: int, m: int| 0 <= j < i && in_use(#[trigger] self.blocks@[j])
                    && #[trigger] self@.free_at(block_end(self.blocks@[j]), m) ==> m <= largest,
            decreases 32 - i,
        {
            let (seg, size): (u16, u16) = self.blocks[i];
            assert(block_end(self@.table[i as int]) <= 0xA000);
            let end: u16 = seg + size;
            if seg != 0 && end >= self.start {
                let gap: u16 = self.room_end(end).saturating_sub(end);
                if gap > largest {
                    assert(self@.free_at(end as int, gap as int));
                    largest = gap;
                }
            }
            i += 1;
        }
        proof {
            assert forall|m: int| m > largest implies !#[trigger] self@.has_room(m) by {
                if self@.has_room(m) {
                    let s = choose|s: int| #[trigger] self@.free_at(s, m);
                    let c = lemma_lower_edge(self@, s, m, 32);
                    if c != self.start {
                        let j = choose|j: int| 0 <= j < 32 && in_use(#[trigger] self@.table[j])
                            && block_end(self@.table[j]) == c;
                        assert(self@.free_at(block_end(self.blocks@[j]), m + (s - c)));
                    } else {
                        assert(self@.free_at(self.start as int, m + (s - c)));
                    }
                }
            }
        }
        proof { lemma_unique(self@, 0, largest); }
        largest
    }
}

/// A free run can be extended down to the start or to the end of a block.
proof fn lemma_lower_edge(b: Blocks, s: int, m: int, n: int) -> (c: int)
    requires
        b.wf(),
        b.free_at(s, m),
        m > 0,
        0 <= n <= 32,
    ensures
        b.start <= c <= s,
        c == b.start || exists|j: int| 0 <= j < 32 && in_use(#[trigger] b.table[j]) && block_end(
            b.table[j],
        ) == c,
        forall|j: int| 0 <= j < n && in_use(#[trigger] b.table[j]) && block_end(b.table[j]) <= s
            ==> block_end(b.table[j]) <= c,
        n == 32 ==> b.free_at(c, m + (s - c)),
    decreases n,
{
    if n == 0 {
        b.start as int
    } else {
        let c0 = lemma_lower_edge(b, s, m, n - 1);
        let x = b.table[n - 1];
        let c = if in_use(x) && block_end(x) <= s && block_end(x) > c0 { block_end(x) } else { c0 };
        if n == 32 {
            assert forall|i: int| 0 <= i < b.table.len() && in_use(#[trigger] b.table[i]) implies apart(
                c, m + (s - c), b.table[i],
            ) by {
                assert(apart(s, m, b.table[i]));
                if block_end(b.table[i]) <= s {
                    assert(block_end(b.table[i]) <= c);
                }
            }
        }
        c
    }
}

/// Blocks that are given out never overlap: allocating, freeing and resizing keep
/// all blocks apart.
pub proof fn arena_blocks_stay_apart(b: Blocks, s: u16, n: u16)
    requires
        b.wf(),
        b.disjoint(),
    ensures
        slot_of(b.table, 0) matches Some(i) ==> (b.lowest_free(s as int, n as int) ==> b.with_block(
            i, (s, n),
        ).disjoint()),
        slot_of(b.table, s) matches Some(i) ==> b.with_block(i, (0, 0)).disjoint(),
        b.can_resize(s, n as int) ==> b.with_block(slot_of(b.table, s).unwrap(), (s, n)).disjoint(),
{
    lemma_slot_of(b.table, 0);
    lemma_slot_of(b.table, s);
    if let Some(i) = slot_of(b.table, 0) {
        if b.lowest_free(s as int, n as int) {
            let a = b.with_block(i, (s, n));
            assert forall|x: int, y: int| 0 <= x < a.table.len() && 0 <= y < a.table.len() && x != y
                && in_use(#[trigger] a.table[x]) && in_use(#[trigger] a.table[y]) implies apart(
                a.table[x].0 as int, a.table[x].1 as int, a.table[y],
            ) by {
                if x == i {
                    assert(in_use(b.table[y]));
                } else if y == i {
                    assert(in_use(b.table[x]));
                } else {
                    assert(in_use(b.table[x]) && in_use(b.table[y]));
                }
            }
        }
    }
    if let Some(i) = slot_of(b.table, s) {
        let a = b.with_block(i, (0, 0));
        assert forall|x: int, y: int| 0 <= x < a.table.len() && 0 <= y < a.table.len() && x != y
            && in_use(#[trigger] a.table[x]) && in_use(#[trigger] a.table[y]) implies apart(
            a.table[x].0 as int, a.table[x].1 as int, a.table[y],
        ) by {
            assert(in_use(b.table[x]) && in_use(b.table[y]));
        }
    }
    if b.can_resize(s, n as int) {
        let i = slot_of(b.table, s).unwrap();
        let a = b.with_block(i, (s, n));
        assert forall|x: int, y: int| 0 <= x < a.table.len() && 0 <= y < a.table.len() && x != y
            && in_use(#[trigger] a.table[x]) && in_use(#[trigger] a.table[y]) implies apart(
            a.table[x].0 as int, a.table[x].1 as int, a.table[y],
        ) by {
            if x == i {
                assert(in_use(b.table[y]));
            } else if y == i {
                assert(in_use(b.table[x]));
            } else {
                assert(in_use(b.table[x]) && in_use(b.table[y]));
            }
        }
    }
}

/// Freeing a block that was just given out restores the arena, unless another
/// block had its segment.
pub proof fn free_undoes_alloc(b: Blocks, s: u16, n: u16)
    requires
        b.wf(),
        s != 0,
        slot_of(b.table, 0).is_some(),
        b.table[slot_of(b.table, 0).unwrap()] == (0u16, 0u16),
        slot_of(b.table, s).is_none(),
    ensures
        ({
            let i = slot_of(b.table, 0).unwrap();
            let a = b.with_block(i, (s, n));
            slot_of(a.table, s) == Some(i) && a.with_block(i, (0, 0)) == b
        }),
{
    lemma_slot_of(b.table, 0);
    lemma_slot_of(b.table, s);
    let i = slot_of(b.table, 0).unwrap();
    let a = b.with_block(i, (s, n));
    lemma_slot_of(a.table, s);
    match slot_of(a.table, s) {
        Some(j) => {
            if j < i {
                assert(a.table[j] == b.table[j]);
            }
            if j > i {
                assert(a.table[i].0 != s);
            }
        },
        None => {
            assert(a.table[i].0 != s);
        },
    }
    assert(a.with_block(i, (0, 0)).table =~= b.table);
}

/// Blocks of high memory: address and size; address 0 marks a free slot. A handle
/// is the number of a slot, from 1.
pub struct HighMemory {
    pub blocks: Vec<(u32, u32)>,
}

/// The first free slot of a table of high memory blocks.
pub open spec fn high_slot(table: Seq<(u32, u32)>) -> Option<int>
    decreases table.len(),
{
    if table.len() == 0 {
        None
    } else {
        match high_slot(table.drop_last()) {
            Some(i) => Some(i),
            None => if table.last().0 == 0 { Some(table.len() - 1) } else { None },
        }
    }
}

proof fn lemma_high_slot(table: Seq<(u32, u32)>)
    ensures
        high_slot(table) matches Some(i) ==> 0 <= i < table.len() && table[i].0 == 0 && forall|j: int|
            0 <= j < i ==> (#[trigger] table[j]).0 != 0,
        high_slot(table).is_none() ==> forall|j: int| 0 <= j < table.len() ==> (#[trigger] table[j]).0 != 0,
    decreases table.len(),
{
    if table.len() > 0 {
        lemma_high_slot(table.drop_last());
        assert forall|j: int| 0 <= j < table.len() - 1 implies table.drop_last()[j] == table[j] by {}
    }
}

/// The block that a handle names.
pub open spec fn high_block(table: Seq<(u32, u32)>, handle: u32) -> Option<(u32, u32)> {
    if 1 <= handle <= table.len() && table[handle - 1].0 != 0 { Some(table[handle - 1]) } else { None }
}

impl HighMemory {
    pub open spec fn wf(&self) -> bool {
        self.blocks@.len() == 32
    }

    pub fn new() -> (r: Self)
        ensures
            r.wf(),
            r.blocks@ == Seq::new(32, |i: int| (0u32, 0u32)),
    {
        let mut blocks: Vec<(u32, u32)> = Vec::new();
        let mut i: usize = 0;
        while i < 32
            invariant
                i <= 32,
                blocks@ =~= Seq::new(i as nat, |k: int| (0u32, 0u32)),
            decreases 32 - i,
        {
            blocks.push((0, 0));
            i += 1;
        }
        HighMemory { blocks }
    }

    /// Record a block in the first free slot; returns its handle.
    pub fn dpmi_high_mem_record(&mut self, addr: u32, size: u32) -> (r: Option<u32>)
        requires
            old(self).wf(),
        ensures
            final(self).wf(),
            r == (match high_slot(old(self).blocks@) { Some(i) => Some((i + 1) as u32), None => None }),
            final(self).blocks@ == (match high_slot(old(self).blocks@) {
                Some(i) => old(self).blocks@.update(i, (addr, size)),
                None => old(self).blocks@,
            }),
    {
        proof { lemma_high_slot(self.blocks@); }
        let mut i: usize = 0;
        while i < 32
            invariant
                i <= 32,
                self.wf(),
                self.blocks@ == old(self).blocks@,
                forall|j: int| 0 <= j < i ==> (#[trigger] self.blocks@[j]).0 != 0,
            decreases 32 - i,
        {
            if self.blocks[i].0 == 0 {
                proof { lemma_high_slot(self.blocks@); }
                self.blocks[i] = (addr, size);
                return Some((i + 1) as u32);
            }
            i += 1;
        }
        proof { lemma_high_slot(self.blocks@); }
        None
    }

    /// Forget the block of a handle; returns the block, which is then unmapped.
    pub fn dpmi_high_mem_free(&mut self, handle: u32) -> (r: Option<(u32, u32)>)
        requires
            old(self).wf(),
        ensures
            final(self).wf(),
            r == high_block(old(self).blocks@, handle),
            final(self).blocks@ == (if r.is_some() {
                old(self).blocks@.update(handle - 1, (0, 0))
            } else {
                old(self).blocks@
            }),
    {
        if handle == 0 {
            return None;
        }
        let idx: u32 = handle - 1;
        if idx >= 32 || self.blocks[idx as usize].0 == 0 {
            return None;
        }
        let block: (u32, u32) = self.blocks[idx as usize];
        self.blocks[idx as usize] = (0, 0);
        Some(block)
    }
}

/// A recorded block is found under its handle, and freeing it frees the slot.
pub proof fn high_memory_handles_work(table: Seq<(u32, u32)>, addr: u32, size: u32)
    requires
        table.len() == 32,
        addr != 0,
        high_slot(table).is_some(),
    ensures
        ({
            let i = high_slot(table).unwrap();
            let t = table.update(i, (addr, size));
            &&& high_block(table, (i + 1) as u32).is_none()
            &&& high_block(t, (i + 1) as u32) == Some((addr, size))
            &&& high_block(t.update(i, (0, 0)), (i + 1) as u32).is_none()
            &&& forall|h: u32| h != i + 1 ==> #[trigger] high_block(t, h) == high_block(table, h)
        }),
{
    lemma_high_slot(table);
}

} // verus!
