//! A generational arena: stable-identity storage with O(1) lookup by handle.
//!
//! Every occupied slot carries a generation tag. A handle remembers the tag
//! the slot had when the value was inserted, so after a slot is freed and
//! recycled, handles into its previous life are recognized as stale and every
//! lookup through them reports the value as absent.

use vstd::prelude::*;

verus! {

/// A generation-checked reference to a slot in a [`Pool`].
///
/// A handle is a plain copyable value; it never owns the slot it points to.
/// A handle whose generation is zero is the null handle and refers to no
/// slot, since occupied slots always carry a generation of at least one.
#[derive(Clone, Copy, PartialEq, Eq, Structural, Debug, Hash)]
pub struct Handle {
    index: usize,
    generation: u64,
}

impl Handle {
    /// The slot index this handle points at.
    pub closed spec fn idx(self) -> int {
        self.index as int
    }

    /// The generation tag this handle carries.
    pub closed spec fn ver(self) -> int {
        self.generation as int
    }

    /// Whether this is the null handle, which refers to no slot.
    pub open spec fn is_null(self) -> bool {
        self.ver() == 0
    }

    /// The null handle value.
    pub closed spec fn null() -> Handle {
        Handle { index: 0, generation: 0 }
    }

    /// Returns the null handle, which refers to no slot.
    pub fn none() -> (h: Handle)
        ensures
            h == Handle::null(),
            h.is_null(),
    {
        Handle { index: 0, generation: 0 }
    }

    /// The slot index this handle points at.
    pub fn index(&self) -> (i: usize)
        ensures
            i as int == self.idx(),
    {
        self.index
    }

    /// The generation tag this handle carries.
    pub fn generation(&self) -> (g: u64)
        ensures
            g as int == self.ver(),
    {
        self.generation
    }

    /// Whether this handle may refer to a slot (it is not null).
    pub fn is_some(&self) -> (b: bool)
        ensures
            b == !self.is_null(),
    {
        self.generation != 0
    }

    /// Whether this handle is the null handle.
    pub fn is_none(&self) -> (b: bool)
        ensures
            b == self.is_null(),
    {
        self.generation == 0
    }
}

/// One slot of a pool: its current generation tag and its occupant, if any.
pub struct Entry<T> {
    /// The generation the slot is currently on.
    pub generation: u64,
    /// The stored value, or `None` while the slot is vacant.
    pub value: Option<T>,
}

/// Whether a vacant slot may be placed on the free list.
spec fn recyclable<T>(entries: Seq<Entry<T>>, i: usize) -> bool {
    &&& (i as int) < entries.len()
    &&& entries[i as int].value is None
    &&& entries[i as int].generation < u64::MAX
}

/// An append/reuse container mapping [`Handle`] to `T`.
///
/// Insertion returns a handle that stays valid until the slot is freed;
/// lookups through a stale handle (one whose generation no longer matches
/// the slot) report absence rather than the slot's new occupant.
pub struct Pool<T> {
    entries: Vec<Entry<T>>,
    free: Vec<usize>,
}

impl<T> Pool<T> {
    /// The number of slots, vacant ones included.
    pub closed spec fn slot_count(self) -> int {
        self.entries@.len() as int
    }

    /// The generation tag of slot `i`.
    pub closed spec fn gen_at(self, i: int) -> int {
        self.entries@[i].generation as int
    }

    /// The occupant of slot `i`, if any.
    pub closed spec fn payload_at(self, i: int) -> Option<T> {
        self.entries@[i].value
    }

    /// How many vacant slots are queued for reuse.
    pub closed spec fn n_free(self) -> int {
        self.free@.len() as int
    }

    /// The slot index at position `k` of the reuse queue.
    pub closed spec fn free_at(self, k: int) -> int {
        self.free@[k] as int
    }

    /// Whether `h` currently refers to an occupied slot.
    pub open spec fn has(self, h: Handle) -> bool {
        &&& 0 <= h.idx() < self.slot_count()
        &&& self.gen_at(h.idx()) == h.ver()
        &&& self.payload_at(h.idx()) is Some
    }

    /// The value `h` refers to.
    pub open spec fn at(self, h: Handle) -> T
        recommends
            self.has(h),
    {
        self.payload_at(h.idx())->0
    }

    /// The pool's internal invariant: every slot queued for reuse is vacant
    /// and can still have its generation bumped, and occupied or not, every
    /// slot's generation is at least one (so the null handle never matches).
    pub closed spec fn wf(self) -> bool {
        &&& forall|k: int|
            0 <= k < self.free@.len() ==> recyclable(self.entries@, #[trigger] self.free@[k])
        &&& forall|k1: int, k2: int|
            0 <= k1 < k2 < self.free@.len() ==> #[trigger] self.free@[k1] != #[trigger] self.free@[k2]
        &&& forall|i: int| 0 <= i < self.entries@.len() ==> #[trigger] self.gen_at(i) >= 1
    }

    /// Creates an empty pool.
    pub fn new() -> (p: Pool<T>)
        ensures
            p.wf(),
            p.slot_count() == 0,
            p.n_free() == 0,
    {
        Pool { entries: Vec::new(), free: Vec::new() }
    }

    /// Stores `value` in a vacant slot (recycling one if available) and
    /// returns a fresh handle to it. All previously live handles keep
    /// referring to their values.
    pub fn spawn(&mut self, value: T) -> (h: Handle)
        requires
            old(self).wf(),
        ensures
            final(self).wf(),
            final(self).has(h),
            final(self).at(h) == value,
            !old(self).has(h),
            !h.is_null(),
            old(self).slot_count() <= final(self).slot_count() <= old(self).slot_count() + 1,
            0 <= h.idx() < final(self).slot_count(),
            h.idx() < old(self).slot_count() ==> old(self).payload_at(h.idx()) is None,
            forall|i: int|
                0 <= i < old(self).slot_count() && i != h.idx()
                    ==> #[trigger] final(self).payload_at(i) == old(self).payload_at(i)
                        && final(self).gen_at(i) == old(self).gen_at(i),
            forall|h2: Handle|
                #[trigger] old(self).has(h2)
                    ==> final(self).has(h2) && final(self).at(h2) == old(self).at(h2),
            old(self).n_free() == 0
                ==> h.idx() == old(self).slot_count()
                    && final(self).slot_count() == old(self).slot_count() + 1
                    && final(self).n_free() == 0,
    {
        match self.free.pop() {
            Some(i) => {
                proof {
                    assert(recyclable(self.entries@, i));
                }
                let g = self.entries[i].generation;
                let bumped = g + 1;
                let slot = vstd::std_specs::vec::vec_index_mut(&mut self.entries, i);
                slot.generation = bumped;
                slot.value = Some(value);
                proof {
                    assert forall|k: int|
                        0 <= k < self.free@.len() implies recyclable(
                        self.entries@,
                        #[trigger] self.free@[k],
                    ) by {
                        assert(self.free@[k] == old(self).free@[k]);
                        assert(recyclable(old(self).entries@, old(self).free@[k]));
                        assert(old(self).free@[k] != i);
                    }
                    assert forall|j: int|
                        0 <= j < self.entries@.len() implies #[trigger] self.gen_at(j) >= 1 by {
                        assert(old(self).gen_at(j) >= 1);
                    }
                }
                Handle { index: i, generation: bumped }
            },
            None => {
                let i = self.entries.len();
                self.entries.push(Entry { generation: 1, value: Some(value) });
                proof {
                    assert forall|j: int|
                        0 <= j < self.entries@.len() implies #[trigger] self.gen_at(j) >= 1 by {
                        if j < old(self).entries@.len() {
                            assert(old(self).gen_at(j) >= 1);
                        }
                    }
                }
                Handle { index: i, generation: 1 }
            },
        }
    }

    /// Vacates the slot `h` refers to and returns its value, or returns
    /// `None` and leaves the pool unchanged if `h` is stale or out of range.
    /// The slot's generation no longer matches `h`, so `h` is dead from here
    /// on; other handles are unaffected.
    pub fn free(&mut self, h: Handle) -> (r: Option<T>)
        requires
            old(self).wf(),
        ensures
            final(self).wf(),
            final(self).slot_count() == old(self).slot_count(),
            match r {
                Some(v) => {
                    &&& old(self).has(h)
                    &&& v == old(self).at(h)
                    &&& !final(self).has(h)
                    &&& final(self).payload_at(h.idx()) is None
                    &&& forall|i: int|
                        0 <= i < old(self).slot_count() && i != h.idx()
                            ==> #[trigger] final(self).payload_at(i) == old(self).payload_at(i)
                                && final(self).gen_at(i) == old(self).gen_at(i)
                },
                None => {
                    &&& !old(self).has(h)
                    &&& *final(self) == *old(self)
                },
            },
    {
        let live = h.index < self.entries.len() && self.entries[h.index].generation
            == h.generation && self.entries[h.index].value.is_some();
        if live {
            let slot = vstd::std_specs::vec::vec_index_mut(&mut self.entries, h.index);
            {
                let g = slot.generation;
                let mut taken: Option<T> = None;
                core::mem::swap(&mut slot.value, &mut taken);
                // A slot whose generation is exhausted is retired rather
                // than recycled, so generations never wrap around.
                if g < u64::MAX - 1 {
                    let next_gen = g + 1;
                    slot.generation = next_gen;
                    self.free.push(h.index);
                } else {
                    slot.generation = u64::MAX;
                }
                proof {
                    assert forall|k: int|
                        0 <= k < old(self).free@.len() implies old(self).free@[k]
                        != h.index by {
                        assert(recyclable(old(self).entries@, old(self).free@[k]));
                    }
                    assert forall|k: int|
                        0 <= k < self.free@.len() implies recyclable(
                        self.entries@,
                        #[trigger] self.free@[k],
                    ) by {
                        if k < old(self).free@.len() {
                            assert(recyclable(old(self).entries@, old(self).free@[k]));
                        }
                    }
                    assert forall|j: int|
                        0 <= j < self.entries@.len() implies #[trigger] self.gen_at(j) >= 1 by {
                        assert(old(self).gen_at(j) >= 1);
                    }
                }
                taken
            }
        } else {
            None
        }
    }

    /// Whether `h` currently refers to an occupied slot.
    pub fn is_valid(&self, h: Handle) -> (b: bool)
        ensures
            b == self.has(h),
    {
        h.index < self.entries.len() && self.entries[h.index].generation == h.generation
            && self.entries[h.index].value.is_some()
    }

    /// Borrows the value `h` refers to, or reports absence for a stale,
    /// null, or out-of-range handle.
    pub fn try_borrow(&self, h: Handle) -> (r: Option<&T>)
        ensures
            match r {
                Some(v) => self.has(h) && *v == self.at(h),
                None => !self.has(h),
            },
    {
        if h.index < self.entries.len() && self.entries[h.index].generation == h.generation {
            match &self.entries[h.index].value {
                Some(v) => Some(v),
                None => None,
            }
        } else {
            None
        }
    }

    /// Borrows the value that `h` is known to refer to.
    pub fn borrow(&self, h: Handle) -> (r: &T)
        requires
            self.has(h),
        ensures
            *r == self.at(h),
    {
        match &self.entries[h.index].value {
            Some(v) => v,
            None => vstd::pervasive::unreached(),
        }
    }

    /// Mutably borrows the value that `h` is known to refer to. The slot
    /// keeps its generation, so `h` stays live; the slot's occupant becomes
    /// whatever the caller leaves behind the returned reference.
    pub fn borrow_mut(&mut self, h: Handle) -> (r: &mut T)
        requires
            old(self).has(h),
        ensures
            *r == old(self).at(h),
            final(self).slot_count() == old(self).slot_count(),
            final(self).n_free() == old(self).n_free(),
            final(self).payload_at(h.idx()) == Some(*final(r)),
            final(self).has(h),
            forall|i: int|
                0 <= i < old(self).slot_count() ==> #[trigger] final(self).gen_at(i) == old(
                    self,
                ).gen_at(i),
            forall|k: int|
                0 <= k < old(self).n_free() ==> #[trigger] final(self).free_at(k) == old(
                    self,
                ).free_at(k),
            forall|i: int|
                0 <= i < old(self).slot_count() && i != h.idx()
                    ==> #[trigger] final(self).payload_at(i) == old(self).payload_at(i),
    {
        let slot = vstd::std_specs::vec::vec_index_mut(&mut self.entries, h.index);
        match &mut slot.value {
            Some(v) => v,
            None => vstd::pervasive::unreached(),
        }
    }

    /// Mutably borrows the value `h` refers to, or reports absence for a
    /// stale, null, or out-of-range handle.
    pub fn try_borrow_mut(&mut self, h: Handle) -> (r: Option<&mut T>)
        ensures
            match r {
                Some(v) => {
                    &&& old(self).has(h)
                    &&& *v == old(self).at(h)
                    &&& final(self).slot_count() == old(self).slot_count()
                    &&& final(self).n_free() == old(self).n_free()
                    &&& final(self).gen_at(h.idx()) == old(self).gen_at(h.idx())
                    &&& final(self).payload_at(h.idx()) == Some(*final(v))
                    &&& final(self).has(h)
                    &&& forall|i: int|
                        0 <= i < old(self).slot_count() ==> #[trigger] final(self).gen_at(i)
                            == old(self).gen_at(i)
                    &&& forall|k: int|
                        0 <= k < old(self).n_free() ==> #[trigger] final(self).free_at(k)
                            == old(self).free_at(k)
                    &&& forall|i: int|
                        0 <= i < old(self).slot_count() && i != h.idx()
                            ==> #[trigger] final(self).payload_at(i) == old(self).payload_at(i)
                                && final(self).gen_at(i) == old(self).gen_at(i)
                },
                None => {
                    &&& !old(self).has(h)
                    &&& *final(self) == *old(self)
                },
            },
    {
        let live = h.index < self.entries.len() && self.entries[h.index].generation
            == h.generation && self.entries[h.index].value.is_some();
        if live {
            Some(self.borrow_mut(h))
        } else {
            None
        }
    }

    /// Dissolves the pool into its slots, in slot order, for an external
    /// serializer to walk.
    pub fn into_entries(self) -> (entries: Vec<Entry<T>>)
        ensures
            entries@.len() == self.slot_count(),
            forall|i: int|
                0 <= i < entries@.len() ==> (#[trigger] entries@[i]).generation as int
                    == self.gen_at(i) && entries@[i].value == self.payload_at(i),
    {
        self.entries
    }

    /// Rebuilds a pool from slots an external deserializer produced, with
    /// an empty reuse queue. Every slot must already carry a generation of
    /// at least one.
    pub fn from_entries(entries: Vec<Entry<T>>) -> (p: Pool<T>)
        requires
            forall|i: int| 0 <= i < entries@.len() ==> #[trigger] entries@[i].generation >= 1,
        ensures
            p.wf(),
            p.n_free() == 0,
            p.slot_count() == entries@.len(),
            forall|i: int|
                0 <= i < entries@.len() ==> #[trigger] p.gen_at(i) == entries@[i].generation as int,
            forall|i: int|
                0 <= i < entries@.len() ==> #[trigger] p.payload_at(i) == entries@[i].value,
    {
        let p = Pool { entries, free: Vec::new() };
        proof {
            assert forall|i: int| 0 <= i < p.entries@.len() implies #[trigger] p.gen_at(i) >= 1 by {
                assert(p.entries@[i].generation >= 1);
            }
        }
        p
    }

    /// Swaps the value that `h` is known to refer to for `value`, returning
    /// the previous occupant. The slot stays on the same generation, so `h`
    /// remains live.
    pub fn replace(&mut self, h: Handle, value: T) -> (r: T)
        requires
            old(self).has(h),
        ensures
            r == old(self).at(h),
            final(self).has(h),
            final(self).at(h) == value,
            final(self).slot_count() == old(self).slot_count(),
            final(self).n_free() == old(self).n_free(),
            old(self).wf() ==> final(self).wf(),
            final(self).gen_at(h.idx()) == old(self).gen_at(h.idx()),
            final(self).payload_at(h.idx()) == Some(value),
            forall|i: int|
                0 <= i < old(self).slot_count() && i != h.idx()
                    ==> #[trigger] final(self).payload_at(i) == old(self).payload_at(i)
                        && final(self).gen_at(i) == old(self).gen_at(i),
    {
        let slot = vstd::std_specs::vec::vec_index_mut(&mut self.entries, h.index);
        let mut swapped: Option<T> = Some(value);
        core::mem::swap(&mut slot.value, &mut swapped);
        proof {
            if old(self).wf() {
                assert forall|k: int|
                    0 <= k < self.free@.len() implies recyclable(
                    self.entries@,
                    #[trigger] self.free@[k],
                ) by {
                    assert(recyclable(old(self).entries@, old(self).free@[k]));
                }
                assert forall|j: int|
                    0 <= j < self.entries@.len() implies #[trigger] self.gen_at(j) >= 1 by {
                    assert(old(self).gen_at(j) >= 1);
                }
            }
        }
        match swapped {
            Some(v) => v,
            None => vstd::pervasive::unreached(),
        }
    }
}


/// Two distinct handles to the same slot can never both be live: once a
/// slot is recycled onto a new generation, any handle carrying the old
/// generation is stale and every lookup through it reports absence.
pub proof fn lemma_stale_handle_excluded<T>(p: Pool<T>, h1: Handle, h2: Handle)
    requires
        h1.idx() == h2.idx(),
        h1.ver() != h2.ver(),
    ensures
        !(p.has(h1) && p.has(h2)),
{
}

/// A pool stays well formed when only the values inside occupied slots
/// change: well-formedness constrains slot generations, vacancy, and the
/// reuse queue, never the stored values.
pub proof fn lemma_wf_value_change<T>(p1: Pool<T>, p2: Pool<T>)
    requires
        p1.wf(),
        p2.slot_count() == p1.slot_count(),
        p2.n_free() == p1.n_free(),
        forall|k: int| 0 <= k < p1.n_free() ==> #[trigger] p2.free_at(k) == p1.free_at(k),
        forall|i: int| 0 <= i < p1.slot_count() ==> #[trigger] p2.gen_at(i) == p1.gen_at(i),
        forall|i: int|
            0 <= i < p1.slot_count() ==> (#[trigger] p2.payload_at(i) is Some <==> p1.payload_at(
                i,
            ) is Some),
    ensures
        p2.wf(),
{
    assert forall|k: int|
        0 <= k < p2.free@.len() implies recyclable(p2.entries@, #[trigger] p2.free@[k]) by {
        assert(p2.free_at(k) == p1.free_at(k));
        assert(recyclable(p1.entries@, p1.free@[k]));
        let i = p1.free@[k] as int;
        assert(p2.gen_at(i) == p1.gen_at(i));
        assert(p2.payload_at(i) is Some <==> p1.payload_at(i) is Some);
    }
    assert forall|k1: int, k2: int|
        0 <= k1 < k2 < p2.free@.len() implies #[trigger] p2.free@[k1] != #[trigger] p2.free@[k2] by {
        assert(p2.free_at(k1) == p1.free_at(k1));
        assert(p2.free_at(k2) == p1.free_at(k2));
    }
    assert forall|i: int| 0 <= i < p2.entries@.len() implies #[trigger] p2.gen_at(i) >= 1 by {
        assert(p2.gen_at(i) == p1.gen_at(i));
        assert(p1.gen_at(i) >= 1);
    }
}


/// In a well-formed pool every slot's generation is at least one; in
/// particular the null handle, whose generation is zero, never matches.
pub proof fn lemma_wf_gens<T>(p: Pool<T>)
    requires
        p.wf(),
    ensures
        forall|i: int| 0 <= i < p.slot_count() ==> #[trigger] p.gen_at(i) >= 1,
{
}

} // verus!
