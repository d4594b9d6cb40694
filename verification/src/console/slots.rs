//! A list of numbered slots.
use vstd::prelude::*;

verus! {

/// Values under small numbers. A number is free again once its value is removed.
pub struct SlotList<T> {
    pub slots: Vec<Option<T>>,
}

impl<T> View for SlotList<T> {
    type V = Seq<Option<T>>;

    open spec fn view(&self) -> Seq<Option<T>> {
        self.slots@
    }
}

/// The value under number `i`.
pub open spec fn slot<T>(s: Seq<Option<T>>, i: int) -> Option<T> {
    if 0 <= i < s.len() { s[i] } else { None }
}

/// The lowest free number.
pub open spec fn first_free<T>(s: Seq<Option<T>>) -> int
    decreases s.len(),
{
    if s.len() == 0 || s[0].is_none() {
        0
    } else {
        1 + first_free(s.drop_first())
    }
}

/// The slots with `value` under the lowest free number.
pub open spec fn inserted<T>(s: Seq<Option<T>>, value: T) -> Seq<Option<T>> {
    let i = first_free(s);
    if i < s.len() { s.update(i, Some(value)) } else { s.push(Some(value)) }
}

/// The slots with `value` under number `i`, with empty slots before it as needed.
pub open spec fn replaced<T>(s: Seq<Option<T>>, i: int, value: T) -> Seq<Option<T>> {
    Seq::new(
        if i < s.len() { s.len() } else { (i + 1) as nat },
        |k: int| if k == i { Some(value) } else if k < s.len() { s[k] } else { None },
    )
}

proof fn lemma_first_free_from<T>(s: Seq<Option<T>>, k: int)
    requires
        0 <= k <= s.len(),
        forall|j: int| 0 <= j < k ==> s[j].is_some(),
        k < s.len() ==> s[k].is_none(),
    ensures
        first_free(s) == k,
    decreases k,
{
    if k > 0 {
        assert(s[0].is_some());
        let t = s.drop_first();
        assert forall|j: int| 0 <= j < k - 1 implies t[j].is_some() by {
            assert(t[j] == s[j + 1]);
        }
        if k < s.len() {
            assert(t[k - 1] == s[k]);
        }
        lemma_first_free_from(t, k - 1);
    }
}

impl<T> SlotList<T> {
    pub fn new() -> (r: Self)
        ensures
            r@ == Seq::<Option<T>>::empty(),
    {
        Self { slots: Vec::new() }
    }

    pub fn get(&self, i: usize) -> (r: Option<&T>)
        ensures
            r.is_some() == slot(self@, i as int).is_some(),
            r.is_some() ==> *r.unwrap() == slot(self@, i as int).unwrap(),
    {
        if i < self.slots.len() {
            self.slots[i].as_ref()
        } else {
            None
        }
    }

    /// Store a value under the lowest free number.
    pub fn insert(&mut self, value: T) -> (r: usize)
        ensures
            r == first_free(old(self)@),
            final(self)@ == inserted(old(self)@, value),
            slot(final(self)@, r as int) == Some(value),
            slot(old(self)@, r as int).is_none(),
            forall|j: int| j != r ==> slot(final(self)@, j) == slot(old(self)@, j),
    {
        let mut i: usize = 0;
        while i < self.slots.len()
            invariant
                i <= self.slots@.len(),
                self.slots@ == old(self).slots@,
                forall|j: int| 0 <= j < i ==> self.slots@[j].is_some(),
            decreases self.slots@.len() - i,
        {
            if self.slots[i].is_none() {
                proof { lemma_first_free_from(self.slots@, i as int); }
                self.slots[i] = Some(value);
                return i;
            }
            i += 1;
        }
        proof { lemma_first_free_from(self.slots@, i as int); }
        self.slots.push(Some(value));
        i
    }

    /// Take the value under a number and free the number.
    pub fn remove(&mut self, i: usize) -> (r: Option<T>)
        ensures
            r == slot(old(self)@, i as int),
            final(self)@ == (if i < old(self)@.len() {
                old(self)@.update(i as int, None)
            } else {
                old(self)@
            }),
    {
        if i < self.slots.len() {
            let mut taken: Option<T> = None;
            core::mem::swap(&mut self.slots[i], &mut taken);
            taken
        } else {
            None
        }
    }

    /// Put a value under a given number.
    pub fn replace(&mut self, i: usize, value: T)
        requires
            i < usize::MAX,
        ensures
            final(self)@ == replaced(old(self)@, i as int, value),
    {
        while self.slots.len() <= i
            invariant
                i < usize::MAX,
                self.slots@.len() >= old(self)@.len(),
                self.slots@.len() == old(self)@.len() || self.slots@.len() <= i + 1,
                forall|k: int| 0 <= k < self.slots@.len() ==> #[trigger] self.slots@[k] == (
                    if k < old(self)@.len() { old(self)@[k] } else { None }),
            decreases i + 1 - self.slots@.len(),
        {
            self.slots.push(None);
        }
        self.slots[i] = Some(value);
        assert(self@ =~= replaced(old(self)@, i as int, value));
    }
}

/// Removing what was just inserted leaves every number as it was.
pub proof fn remove_undoes_insert<T>(s: Seq<Option<T>>, value: T, j: int)
    ensures
        ({
            let i = first_free(s);
            let t = inserted(s, value);
            slot(t.update(i, None), j) == slot(s, j)
        }),
{
    lemma_first_free_bounds(s);
}

/// What inserting does to each number.
pub proof fn lemma_inserted<T>(s: Seq<Option<T>>, value: T)
    ensures
        slot(inserted(s, value), first_free(s)) == Some(value),
        slot(s, first_free(s)).is_none(),
        forall|j: int| j != first_free(s) ==> slot(inserted(s, value), j) == slot(s, j),
        s.len() <= inserted(s, value).len() <= s.len() + 1,
        0 <= first_free(s) < inserted(s, value).len(),
{
    lemma_first_free_bounds(s);
}

proof fn lemma_first_free_bounds<T>(s: Seq<Option<T>>)
    ensures
        0 <= first_free(s) <= s.len(),
        first_free(s) < s.len() ==> s[first_free(s)].is_none(),
    decreases s.len(),
{
    if s.len() > 0 && s[0].is_some() {
        lemma_first_free_bounds(s.drop_first());
    }
}

/// A slot that is replaced holds the new value. All other slots stay, and those in between are free.
pub proof fn replaced_slots_hold_the_value<T>(s: Seq<Option<T>>, i: int, value: T, j: int)
    requires
        0 <= i,
        0 <= j,
    ensures
        slot(replaced(s, i, value), j) == (if j == i { Some(value) } else { slot(s, j) }),
{
}

} // verus!
