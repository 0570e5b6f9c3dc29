//! A fixed-capacity slab container.
//!
//! `OchenSlab<T>` pre-allocates storage for exactly `capacity` elements at
//! construction time, never grows, and hands out stable `usize` indices for
//! inserted elements. Free slots are recycled in LIFO order. Because the
//! backing storage never relocates, inserting or removing one element never
//! disturbs any other element.

use vstd::prelude::*;

verus! {

/// Fixed-capacity slab storage.
///
/// Each slot either holds one value (`Some`) or is free (`None`); the free
/// list records the indices of the free slots, used as a LIFO stack.
pub struct OchenSlab<T> {
    storage: Vec<Option<T>>,
    free: Vec<usize>,
}

/// Number of occupied (`Some`) slots in a slot sequence.
pub open spec fn num_occupied<T>(s: Seq<Option<T>>) -> nat
    decreases s.len(),
{
    if s.len() == 0 {
        0
    } else {
        num_occupied(s.drop_last()) + (if s.last() is Some {
            1nat
        } else {
            0nat
        })
    }
}

proof fn lemma_num_occupied_all_some<T>(s: Seq<Option<T>>)
    requires
        forall|i: int| 0 <= i < s.len() ==> s[i] is Some,
    ensures
        num_occupied(s) == s.len(),
    decreases s.len(),
{
    if s.len() > 0 {
        lemma_num_occupied_all_some(s.drop_last());
    }
}

proof fn lemma_num_occupied_update<T>(s: Seq<Option<T>>, i: int, v: Option<T>)
    requires
        0 <= i < s.len(),
    ensures
        num_occupied(s.update(i, v)) == num_occupied(s) + (if v is Some {
            1int
        } else {
            0int
        }) - (if s[i] is Some {
            1int
        } else {
            0int
        }),
    decreases s.len(),
{
    let t = s.update(i, v);
    if i == s.len() - 1 {
        assert(t.drop_last() =~= s.drop_last());
    } else {
        assert(t.drop_last() =~= s.drop_last().update(i, v));
        lemma_num_occupied_update(s.drop_last(), i, v);
    }
}

/// Length invariant: in a well-formed slab the free list is exactly as long
/// as the number of free slots, so the occupied count and the free count
/// together account for the whole capacity.
pub proof fn lemma_occupancy_counts<T>(s: OchenSlab<T>)
    requires
        s.wf(),
    ensures
        num_occupied(s.slots()) + s.free_list().len() == s.capacity(),
{
    vstd::std_specs::vec::axiom_spec_len(&s.storage);
    lemma_free_matches_occupancy(s.slots(), s.free_list());
}

proof fn lemma_free_matches_occupancy<T>(slots: Seq<Option<T>>, free: Seq<usize>)
    requires
        slots.len() <= usize::MAX,
        forall|k: int|
            0 <= k < free.len() ==> (#[trigger] free[k]) < slots.len() && slots[free[k] as int] is None,
        forall|k1: int, k2: int| 0 <= k1 < k2 < free.len() ==> free[k1] != free[k2],
        forall|i: int| 0 <= i < slots.len() && slots[i] is None ==> free.contains(i as usize),
    ensures
        num_occupied(slots) + free.len() == slots.len(),
    decreases free.len(),
{
    if free.len() == 0 {
        assert forall|i: int| 0 <= i < slots.len() implies slots[i] is Some by {
            if slots[i] is None {
                assert(free.contains(i as usize));
            }
        }
        lemma_num_occupied_all_some(slots);
    } else {
        let j = free.last();
        let slots2 = slots.update(j as int, Some(arbitrary::<T>()));
        let free2 = free.drop_last();
        assert forall|i: int| 0 <= i < slots2.len() && slots2[i] is None implies free2.contains(
            i as usize,
        ) by {
            assert(slots[i] is None);
            assert(free.contains(i as usize));
            let k = choose|k: int| 0 <= k < free.len() && free[k] == i as usize;
            if k == free.len() - 1 {
                assert(i == j as int);
                assert(slots2[i] is Some);
            }
            assert(free2[k] == i as usize);
        }
        lemma_num_occupied_update(slots, j as int, Some(arbitrary::<T>()));
        lemma_free_matches_occupancy(slots2, free2);
    }
}

/// Capacity ceiling: in a well-formed slab the free list is empty exactly
/// when every slot is occupied, so by the contract of `insert` an insert
/// succeeds exactly while fewer than `capacity` elements are stored.
pub proof fn lemma_capacity_ceiling<T>(s: OchenSlab<T>)
    requires
        s.wf(),
    ensures
        s.free_list().len() > 0 <==> num_occupied(s.slots()) < s.capacity(),
{
    lemma_occupancy_counts(s);
}

/// Round trip: in the state a successful `insert(v)` leaves behind, a lookup
/// at the returned index observes `v`.
pub proof fn lemma_insert_round_trip<T>(pre: OchenSlab<T>, post: OchenSlab<T>, v: T, i: usize)
    requires
        pre.wf(),
        pre.free_list().len() > 0,
        i == pre.free_list().last(),
        post.slots() == pre.slots().update(i as int, Some(v)),
    ensures
        post.spec_get(i) == Some(v),
{
    assert(pre.free_list()[pre.free_list().len() - 1] < pre.capacity());
}

/// Removing frees the slot: in the state a successful `remove(i)` leaves
/// behind, a lookup at `i` observes nothing, and the free list is not empty,
/// so by the contract of `insert` the next insert succeeds.
pub proof fn lemma_remove_frees_slot<T>(pre: OchenSlab<T>, post: OchenSlab<T>, i: usize)
    requires
        pre.spec_get(i) is Some,
        post.slots() == pre.slots().update(i as int, None),
        post.free_list() == pre.free_list().push(i),
    ensures
        post.spec_get(i) is None,
        post.free_list().len() > 0,
{
}

/// Non-interference: a mutation that only touches slot `j` — an insert into
/// `j`, a removal of `j`, or a write through a mutable reference to `j` —
/// leaves what a lookup at any other index `i` observes unchanged.
pub proof fn lemma_non_interference<T>(
    pre: OchenSlab<T>,
    post: OchenSlab<T>,
    i: usize,
    j: usize,
    x: Option<T>,
)
    requires
        i != j,
        j < pre.capacity(),
        post.slots() == pre.slots().update(j as int, x),
    ensures
        post.spec_get(i) == pre.spec_get(i),
{
}

/// An index at or beyond the capacity observes nothing: by the contracts of
/// `get`, `get_mut` and `remove`, all three return `None` for it.
pub proof fn lemma_out_of_range_observes_nothing<T>(s: OchenSlab<T>, i: usize)
    requires
        i >= s.capacity(),
    ensures
        s.spec_get(i) is None,
{
}

impl<T> OchenSlab<T> {
    /// The slot sequence: index `i` holds `Some(value)` if occupied, `None` if free.
    pub closed spec fn slots(&self) -> Seq<Option<T>> {
        self.storage@
    }

    /// The free list: indices of the currently free slots, popped from the end.
    pub closed spec fn free_list(&self) -> Seq<usize> {
        self.free@
    }

    /// The fixed capacity: the length of the slot sequence, set at construction.
    pub open spec fn capacity(&self) -> nat {
        self.slots().len()
    }

    /// What a lookup at `index` observes: the value there, if the index is in
    /// range and the slot is occupied.
    pub open spec fn spec_get(&self, index: usize) -> Option<T> {
        if index < self.capacity() && self.slots()[index as int] is Some {
            Some(self.slots()[index as int]->0)
        } else {
            None
        }
    }

    /// Well-formedness: the free list holds exactly the indices of the free
    /// slots, each exactly once.
    pub open spec fn wf(&self) -> bool {
        &&& forall|k: int|
            0 <= k < self.free_list().len() ==> (#[trigger] self.free_list()[k]) < self.capacity()
                && self.slots()[self.free_list()[k] as int] is None
        &&& forall|k1: int, k2: int|
            0 <= k1 < k2 < self.free_list().len() ==> self.free_list()[k1] != self.free_list()[k2]
        &&& forall|i: int|
            0 <= i < self.capacity() && self.slots()[i] is None ==> self.free_list().contains(
                i as usize,
            )
    }

    /// Create a slab with the given capacity, all slots free.
    ///
    /// The capacity is constant for the entire lifetime of the object. The
    /// free list is populated so that repeated inserts on a fresh slab yield
    /// ascending indices starting at 0.
    pub fn with_capacity(capacity: usize) -> (s: OchenSlab<T>)
        ensures
            s.wf(),
            s.capacity() == capacity,
            forall|i: int| 0 <= i < capacity ==> s.slots()[i] is None,
            s.free_list().len() == capacity,
            forall|k: int| 0 <= k < capacity ==> #[trigger] s.free_list()[k] as int == capacity - 1 - k,
    {
        let mut storage: Vec<Option<T>> = Vec::with_capacity(capacity);
        let mut i: usize = 0;
        while i < capacity
            invariant
                i <= capacity,
                storage@.len() == i,
                forall|k: int| 0 <= k < i ==> storage@[k] is None,
            decreases capacity - i,
        {
            storage.push(None);
            i += 1;
        }
        let mut free: Vec<usize> = Vec::with_capacity(capacity);
        let mut j: usize = 0;
        while j < capacity
            invariant
                j <= capacity,
                free@.len() == j,
                forall|k: int| 0 <= k < j ==> #[trigger] free@[k] as int == capacity - 1 - k,
            decreases capacity - j,
        {
            free.push(capacity - 1 - j);
            j += 1;
        }
        let s = OchenSlab { storage, free };
        proof {
            assert forall|i: int| 0 <= i < capacity && s.slots()[i] is None implies s.free_list()
                .contains(i as usize) by {
                assert(s.free_list()[capacity - 1 - i] as int == i);
            }
        }
        s
    }

    /// Number of elements currently stored.
    pub fn len(&self) -> (n: usize)
        requires
            self.wf(),
        ensures
            n == num_occupied(self.slots()),
            n + self.free_list().len() == self.capacity(),
    {
        proof {
            lemma_occupancy_counts(*self);
        }
        self.storage.len() - self.free.len()
    }

    /// Get a reference to the item at `index`, or `None` if the index is out
    /// of range or the slot is free.
    pub fn get(&self, index: usize) -> (r: Option<&T>)
        ensures
            match r {
                Some(v) => self.spec_get(index) == Some(*v),
                None => self.spec_get(index) is None,
            },
    {
        if index < self.storage.len() {
            self.storage[index].as_ref()
        } else {
            None
        }
    }

    /// Get a mutable reference to the item at `index`, or `None` if the index
    /// is out of range or the slot is free.
    ///
    /// Writing through the reference changes that slot alone: every other
    /// slot, and the free list, are untouched.
    pub fn get_mut(&mut self, index: usize) -> (r: Option<&mut T>)
        requires
            old(self).wf(),
        ensures
            final(self).wf(),
            final(self).capacity() == old(self).capacity(),
            final(self).free_list() == old(self).free_list(),
            r is Some <==> old(self).spec_get(index) is Some,
            r is Some ==> *r.unwrap() == old(self).slots()[index as int]->0 && final(self).slots()
                == old(self).slots().update(index as int, Some(*final(r.unwrap()))),
            r is None ==> final(self).slots() == old(self).slots(),
    {
        if index >= self.storage.len() {
            return None;
        }
        let slot = &mut self.storage[index];
        let r = slot.as_mut();
        proof {
            if old(self).slots()[index as int] is None {
                assert(after_borrow(*self).slots() =~= old(self).slots());
            }
        }
        r
    }

    /// Insert an item and return its index, or `None` if the slab is full.
    ///
    /// The most recently freed slot is reused first (LIFO); on a fresh slab
    /// the indices are handed out in ascending order from 0. No other slot is
    /// affected.
    pub fn insert(&mut self, value: T) -> (r: Option<usize>)
        requires
            old(self).wf(),
        ensures
            final(self).wf(),
            final(self).capacity() == old(self).capacity(),
            r is Some <==> old(self).free_list().len() > 0,
            match r {
                Some(index) => {
                    &&& index == old(self).free_list().last()
                    &&& index < old(self).capacity()
                    &&& old(self).slots()[index as int] is None
                    &&& final(self).slots() == old(self).slots().update(index as int, Some(value))
                    &&& final(self).free_list() == old(self).free_list().drop_last()
                },
                None => {
                    &&& final(self).slots() == old(self).slots()
                    &&& final(self).free_list() == old(self).free_list()
                },
            },
    {
        let index = match self.free.pop() {
            Some(index) => index,
            None => {
                return None;
            },
        };
        self.storage[index] = Some(value);
        proof {
            let pre = *old(self);
            let post = *self;
            vstd::std_specs::vec::axiom_spec_len(&pre.storage);
            assert forall|k: int|
                0 <= k < post.free_list().len() implies (#[trigger] post.free_list()[k])
                < post.capacity() && post.slots()[post.free_list()[k] as int] is None by {
                assert(post.free_list()[k] == pre.free_list()[k]);
                assert(pre.free_list()[k] != index);
            }
            assert forall|i: int|
                0 <= i < post.capacity() && post.slots()[i] is None implies post.free_list()
                .contains(i as usize) by {
                assert(pre.slots()[i] is None);
                assert(pre.free_list().contains(i as usize));
                let k = choose|k: int|
                    0 <= k < pre.free_list().len() && pre.free_list()[k] == i as usize;
                if k == pre.free_list().len() - 1 {
                    assert(i == index as int);
                    assert(post.slots()[i] is Some);
                }
                assert(post.free_list()[k] == i as usize);
            }
        }
        Some(index)
    }

    /// Remove the item at `index` and return it by value, or `None` (with no
    /// effect) if the index is out of range or the slot is already free.
    ///
    /// The freed index goes onto the free list, to be reused by the next
    /// insert. No other slot is affected.
    pub fn remove(&mut self, index: usize) -> (r: Option<T>)
        requires
            old(self).wf(),
        ensures
            final(self).wf(),
            final(self).capacity() == old(self).capacity(),
            r == old(self).spec_get(index),
            match r {
                Some(_) => {
                    &&& final(self).slots() == old(self).slots().update(index as int, None)
                    &&& final(self).free_list() == old(self).free_list().push(index)
                },
                None => {
                    &&& final(self).slots() == old(self).slots()
                    &&& final(self).free_list() == old(self).free_list()
                },
            },
    {
        if index >= self.storage.len() {
            return None;
        }
        let slot = &mut self.storage[index];
        let value = match slot.take() {
            Some(value) => value,
            None => {
                proof {
                    assert(self.slots() =~= old(self).slots());
                }
                return None;
            },
        };
        self.free.push(index);
        proof {
            let pre = *old(self);
            let post = *self;
            let last = post.free_list().len() - 1;
            assert forall|i: int|
                0 <= i < post.capacity() && post.slots()[i] is None implies post.free_list()
                .contains(i as usize) by {
                if i == index as int {
                    assert(post.free_list()[last] == index);
                } else {
                    assert(pre.free_list().contains(i as usize));
                    let k = choose|k: int|
                        0 <= k < pre.free_list().len() && pre.free_list()[k] == i as usize;
                    assert(post.free_list()[k] == i as usize);
                }
            }
            assert forall|k1: int, k2: int|
                0 <= k1 < k2 < post.free_list().len() implies post.free_list()[k1]
                != post.free_list()[k2] by {
                if k2 == last {
                    assert(pre.slots()[pre.free_list()[k1] as int] is None);
                }
            }
        }
        Some(value)
    }
}

} // verus!
