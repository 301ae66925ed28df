//! Preallocated storage of fixed size for task inputs.
//!
//! A [`Slab`] keeps up to `N` items in numbered slots and hands out a
//! [`SlabHandle`] for each. The numbers of the free slots circulate through a
//! ring: a producer takes the number at the ring's tail, the consumer puts the
//! number of the slot it has emptied back at the ring's head.

use core::marker::PhantomData;
use vstd::prelude::*;

verus! {

/// What a slab holds: the content of each slot, and the free slots in the
/// order in which they will be handed out.
pub struct SlabState<T> {
    pub slots: Seq<Option<T>>,
    pub free: Seq<usize>,
}

impl<T> SlabState<T> {
    /// The number of slots.
    pub open spec fn capacity(self) -> nat {
        self.slots.len()
    }

    /// The number of slots that are taken.
    pub open spec fn used(self) -> int {
        self.slots.len() - self.free.len()
    }

    /// The slots that hold an item.
    pub open spec fn occupied(self) -> Set<usize> {
        Set::new(|i: usize| i < self.slots.len() && self.slots[i as int] is Some)
    }

    /// No slot is free.
    pub open spec fn is_full(self) -> bool {
        self.free.len() == 0
    }

    /// Slot `index` exists and holds an item.
    pub open spec fn holds(self, index: usize) -> bool {
        index < self.slots.len() && self.slots[index as int] is Some
    }

    /// The item in slot `index`.
    pub open spec fn item_at(self, index: usize) -> T
        recommends
            self.holds(index),
    {
        self.slots[index as int]->0
    }

    /// A slot is empty exactly when its number waits in the free queue, and
    /// it waits there once.
    pub open spec fn wf(self) -> bool {
        &&& self.free.len() <= self.slots.len() <= usize::MAX
        &&& self.free.no_duplicates()
        &&& forall|k: int| 0 <= k < self.free.len() ==> (#[trigger] self.free[k]) < self.slots.len()
        &&& forall|i: usize|
            i < self.slots.len() ==> ((#[trigger] self.slots[i as int]) is None
                <==> self.free.contains(i))
    }

    /// The taken slots are as many as the free queue leaves over.
    pub proof fn lemma_occupied_len(self)
        requires
            self.wf(),
        ensures
            self.occupied().finite(),
            self.occupied().len() == self.used(),
    {
        let n = self.slots.len() as usize;
        let all = Set::<usize>::range(0, n);
        let free = self.free.to_set();
        vstd::set_lib::range_set_properties::<usize>(0, n);
        self.free.unique_seq_to_set();
        vstd::seq_lib::seq_to_set_is_finite(self.free);
        assert(free.subset_of(all)) by {
            assert forall|i: usize| free.contains(i) implies all.contains(i) by {
                let k = choose|k: int| 0 <= k < self.free.len() && self.free[k] == i;
                assert(self.free[k] < self.slots.len());
            }
        }
        assert(self.occupied() =~= all.difference(free)) by {
            assert forall|i: usize| self.occupied().contains(i) <==> all.difference(free).contains(
                i,
            ) by {
                if i < self.slots.len() {
                    assert(self.slots[i as int] is None <==> self.free.contains(i));
                }
            }
        }
        vstd::set_lib::lemma_set_difference_len(all, free);
        assert(all.intersect(free) =~= free);
    }

    /// The slot that the next insertion fills.
    pub open spec fn next_free(self) -> usize
        recommends
            !self.is_full(),
    {
        self.free[0]
    }

    /// The state after `item` went into the next free slot.
    pub open spec fn insert(self, item: T) -> SlabState<T>
        recommends
            !self.is_full(),
    {
        SlabState {
            slots: self.slots.update(self.free[0] as int, Some(item)),
            free: self.free.drop_first(),
        }
    }

    /// The state after the item in slot `index` was taken out.
    pub open spec fn remove(self, index: usize) -> SlabState<T>
        recommends
            self.holds(index),
    {
        SlabState { slots: self.slots.update(index as int, None), free: self.free.push(index) }
    }
}

impl<T> SlabState<T> {
    /// An insertion into a slab that is not full keeps it in good order and
    /// takes one slot.
    pub proof fn lemma_insert(self, item: T)
        requires
            self.wf(),
            !self.is_full(),
        ensures
            self.insert(item).wf(),
            self.insert(item).used() == self.used() + 1,
            self.insert(item).holds(self.next_free()),
            self.insert(item).item_at(self.next_free()) == item,
            !self.holds(self.next_free()),
    {
        let now = self.insert(item);
        let index = self.free[0];
        assert(self.free.contains(index));
        assert forall|i: usize| i < now.slots.len() implies ((#[trigger] now.slots[i as int])
            is None <==> now.free.contains(i)) by {
            if i == index {
                if now.free.contains(i) {
                    let k = choose|k: int| 0 <= k < now.free.len() && now.free[k] == i;
                    assert(self.free[k + 1] == i);
                }
            } else {
                assert(self.slots[i as int] is None <==> self.free.contains(i));
                if self.free.contains(i) {
                    let k = choose|k: int| 0 <= k < self.free.len() && self.free[k] == i;
                    assert(now.free[k - 1] == i);
                }
                if now.free.contains(i) {
                    let k = choose|k: int| 0 <= k < now.free.len() && now.free[k] == i;
                    assert(self.free[k + 1] == i);
                }
            }
        }
    }

    /// Taking the item out of a slot that holds one keeps the slab in good
    /// order and gives one slot back.
    pub proof fn lemma_remove(self, index: usize)
        requires
            self.wf(),
            self.holds(index),
        ensures
            self.remove(index).wf(),
            self.remove(index).used() == self.used() - 1,
            !self.remove(index).holds(index),
            self.remove(index).free.last() == index,
    {
        let now = self.remove(index);
        assert(!self.free.contains(index));
        if self.free.len() == self.slots.len() {
            self.lemma_occupied_len();
            assert(self.occupied().contains(index));
        }
        assert forall|i: usize| i < now.slots.len() implies ((#[trigger] now.slots[i as int])
            is None <==> now.free.contains(i)) by {
            if i == index {
                assert(now.free[self.free.len() as int] == i);
            } else {
                assert(self.slots[i as int] is None <==> self.free.contains(i));
                if self.free.contains(i) {
                    let k = choose|k: int| 0 <= k < self.free.len() && self.free[k] == i;
                    assert(now.free[k] == i);
                }
                if now.free.contains(i) {
                    let k = choose|k: int| 0 <= k < now.free.len() && now.free[k] == i;
                    assert(self.free[k] == i);
                }
            }
        }
        assert forall|a: int, b: int|
            0 <= a < now.free.len() && 0 <= b < now.free.len() && a != b implies now.free[a]
            != now.free[b] by {
            if a == self.free.len() {
                assert(self.free[b] == now.free[b]);
            } else if b == self.free.len() {
                assert(self.free[a] == now.free[a]);
            } else {
                assert(self.free[a] == now.free[a]);
                assert(self.free[b] == now.free[b]);
            }
        }
    }

    /// What goes in comes out: the item that an insertion stored is the item
    /// that removing its slot yields, and the removal reclaims the slot, so
    /// that every slot holds what it held before the insertion and as many
    /// slots are taken as before.
    pub proof fn lemma_insert_remove_round_trip(self, item: T)
        requires
            self.wf(),
            !self.is_full(),
        ensures
            self.insert(item).holds(self.next_free()),
            self.insert(item).item_at(self.next_free()) == item,
            self.insert(item).remove(self.next_free()).wf(),
            self.insert(item).remove(self.next_free()).slots == self.slots,
            self.insert(item).remove(self.next_free()).used() == self.used(),
            self.insert(item).remove(self.next_free()).free == self.free.drop_first().push(
                self.next_free(),
            ),
    {
        self.lemma_insert(item);
        self.insert(item).lemma_remove(self.next_free());
        assert(self.free.contains(self.free[0]));
        assert(self.insert(item).remove(self.next_free()).slots =~= self.slots);
    }

    /// An item stays where it is until its own slot is removed: neither an
    /// insertion nor the removal of another slot touches it.
    pub proof fn lemma_held_item_stays(self, index: usize, item: T, other: usize)
        requires
            self.wf(),
            self.holds(index),
            other != index,
        ensures
            !self.is_full() ==> self.insert(item).holds(index) && self.insert(item).item_at(index)
                == self.item_at(index),
            self.holds(other) ==> self.remove(other).holds(index) && self.remove(other).item_at(
                index,
            ) == self.item_at(index),
    {
        if !self.is_full() {
            assert(self.free.contains(self.free[0]));
        }
    }
}

/// Handle to a queued item.
#[derive(Debug)]
pub struct SlabHandle {
    index: usize,
    // Identity of the slab that issued the handle
    ptr: usize,
}

impl SlabHandle {
    /// The slot that the handle stands for.
    pub closed spec fn index(&self) -> usize {
        self.index
    }

    /// The identity of the slab that issued the handle.
    pub closed spec fn ptr(&self) -> usize {
        self.ptr
    }

    /// The handle for slot `index` of the slab with identity `ptr`.
    pub closed spec fn at(index: usize, ptr: usize) -> SlabHandle {
        SlabHandle { index, ptr }
    }

    /// The parts of the handle that `at` makes are the parts it was given.
    pub proof fn lemma_at(index: usize, ptr: usize)
        ensures
            Self::at(index, ptr).index() == index,
            Self::at(index, ptr).ptr() == ptr,
    {
    }

    /// A handle is no more than its slot and the identity of its slab.
    pub proof fn lemma_same_parts(self, other: SlabHandle)
        requires
            self.index() == other.index(),
            self.ptr() == other.ptr(),
        ensures
            self == other,
    {
    }

    pub(crate) fn from_parts(index: usize, ptr: usize) -> (handle: SlabHandle)
        ensures
            handle == Self::at(index, ptr),
            handle.index() == index,
            handle.ptr() == ptr,
    {
        SlabHandle { index, ptr }
    }

    pub(crate) fn parts(&self) -> (parts: (usize, usize))
        ensures
            parts.0 == self.index(),
            parts.1 == self.ptr(),
    {
        (self.index, self.ptr)
    }
}

/// Position `k` steps after `start` on a ring of `n` places.
pub open spec fn ring_pos(start: int, k: int, n: int) -> int {
    if start + k < n {
        start + k
    } else {
        start + k - n
    }
}

/// Storage for up to `N` items of type `T`.
///
/// The view is what the slots hold, with the queue of the free slots.
pub struct Slab<T, const N: usize> {
    // Ring buffer. Contains indices of free slots or usize::MAX if empty.
    free_queue: Vec<usize>,
    // Number of used free_queue slots. Zero means that Slab is empty, N means that Slab is full.
    free_used: usize,
    // Current pop location of free queue
    free_queue_tail: usize,
    // Slots that store actual data
    slots: Vec<Option<T>>,
}

impl<T, const N: usize> View for Slab<T, N> {
    type V = SlabState<T>;

    closed spec fn view(&self) -> SlabState<T> {
        SlabState {
            slots: self.slots@,
            free: Seq::new(
                (N - self.free_used) as nat,
                |k: int| self.free_queue@[ring_pos(self.free_queue_tail as int, k, N as int)],
            ),
        }
    }
}

impl<T, const N: usize> Slab<T, N> {
    /// The ring and its cursor are in step with the count of used slots.
    closed spec fn ring_wf(&self) -> bool {
        &&& self.free_queue@.len() == N
        &&& self.slots@.len() == N
        &&& self.free_used <= N
        &&& self.free_queue_tail < N || (N == 0 && self.free_queue_tail == 0)
        &&& forall|k: int|
            N - self.free_used <= k < N ==> self.free_queue@[#[trigger] ring_pos(
                self.free_queue_tail as int,
                k,
                N as int,
            )] == usize::MAX
    }

    /// The slab's invariant.
    pub closed spec fn wf(&self) -> bool {
        &&& self.ring_wf()
        &&& self@.wf()
    }

    /// The number of slots that are taken.
    pub closed spec fn used(&self) -> nat {
        self.free_used as nat
    }

    /// The place in the ring where the next freed slot is recorded.
    pub closed spec fn head(&self) -> int {
        ring_pos(self.free_queue_tail as int, N - self.free_used, N as int)
    }

    /// A slab of `N` empty slots, which it hands out in ascending order.
    pub fn new() -> (slab: Self)
        ensures
            slab.wf(),
            slab.used() == 0,
            slab.head() == 0,
            slab@.slots == Seq::new(N as nat, |i: int| None::<T>),
            slab@.free == Seq::new(N as nat, |i: int| i as usize),
    {
        let mut free_queue: Vec<usize> = Vec::new();
        let mut slots: Vec<Option<T>> = Vec::new();
        let mut i: usize = 0;
        while i < N
            invariant
                i <= N,
                free_queue@.len() == i,
                slots@.len() == i,
                forall|j: int| 0 <= j < i ==> free_queue@[j] == j as usize,
                forall|j: int| 0 <= j < i ==> slots@[j] is None,
            decreases N - i,
        {
            free_queue.push(i);
            slots.push(None);
            i = i + 1;
        }
        let slab = Slab { free_queue, free_used: 0, free_queue_tail: 0, slots };
        proof {
            assert(slab@.free =~= Seq::new(N as nat, |i: int| i as usize));
            assert(slab@.slots =~= Seq::new(N as nat, |i: int| None::<T>));
            assert forall|i: usize| i < slab@.slots.len() implies ((#[trigger] slab@.slots[i as int])
                is None <==> slab@.free.contains(i)) by {
                assert(slab@.free[i as int] == i);
            }
        }
        slab
    }

    /// The two ends of the slab. Both carry `ptr`, the identity under which
    /// handles are issued and accepted, and the receiving end stands where the
    /// slab expects the next freed slot.
    pub fn split(&self, ptr: usize) -> (ends: (SlabSender<T, N>, SlabReceiver<T, N>))
        requires
            self.wf(),
        ensures
            ends.0.ptr() == ptr,
            ends.1.ptr() == ptr,
            ends.1.paired(self),
    {
        let free: usize = N - self.free_used;
        let tail = self.free_queue_tail;
        let head: usize = if free < N - tail {
            tail + free
        } else {
            tail - (N - free)
        };
        (
            SlabSender { ptr, _marker: PhantomData },
            SlabReceiver { ptr, free_queue_head: head, _marker: PhantomData },
        )
    }

    /// The number of slots that are taken.
    pub fn len(&self) -> (n: usize)
        requires
            self.wf(),
        ensures
            n == self.used(),
            n == self@.used(),
            n <= N,
    {
        self.free_used
    }

    /// Whether every slot is taken.
    pub fn is_full(&self) -> (b: bool)
        requires
            self.wf(),
        ensures
            b == self@.is_full(),
    {
        self.free_used >= N
    }

    /// A slab in good order has `N` slots, and the count of taken slots and
    /// the length of the free queue add up to `N`. The taken slots are
    /// exactly those that hold an item.
    pub proof fn lemma_conservation(&self)
        requires
            self.wf(),
        ensures
            self@.capacity() == N,
            self.used() + self@.free.len() == N,
            self@.occupied().finite(),
            self@.occupied().len() == self.used(),
            self@.wf(),
    {
        self@.lemma_occupied_len();
    }
}

/// The producing end of a slab: it puts items in.
pub struct SlabSender<T, const N: usize> {
    ptr: usize,
    _marker: PhantomData<T>,
}

impl<T, const N: usize> Clone for SlabSender<T, N> {
    fn clone(&self) -> (r: Self)
        ensures
            r.ptr() == self.ptr(),
    {
        SlabSender { ptr: self.ptr, _marker: PhantomData }
    }
}

impl<T, const N: usize> SlabSender<T, N> {
    /// The identity of the slab that this end belongs to.
    pub closed spec fn ptr(&self) -> usize {
        self.ptr
    }

    /// Reserves one free slot of `slab` and writes `item` into it. Fails, and
    /// hands the item back, when the slab is full.
    pub fn insert(&self, slab: &mut Slab<T, N>, item: T) -> (r: Result<SlabHandle, T>)
        requires
            old(slab).wf(),
        ensures
            final(slab).wf(),
            final(slab).head() == old(slab).head(),
            match r {
                Ok(handle) => {
                    &&& !old(slab)@.is_full()
                    &&& handle == SlabHandle::at(old(slab)@.next_free(), self.ptr())
                    &&& handle.index() == old(slab)@.next_free()
                    &&& handle.ptr() == self.ptr()
                    &&& final(slab)@ == old(slab)@.insert(item)
                },
                Err(back) => {
                    &&& old(slab)@.is_full()
                    &&& back == item
                    &&& final(slab)@ == old(slab)@
                },
            },
    {
        let index = match self.get_index(slab) {
            Some(index) => index,
            None => return Err(item),
        };
        let ghost before = slab@;
        slab.slots[index] = Some(item);
        proof {
            assert(slab@.free =~= before.free);
            assert(slab@ =~= old(slab)@.insert(item));
            old(slab)@.lemma_insert(item);
        }
        Ok(SlabHandle { index, ptr: self.ptr })
    }

    /// Takes the number of the next free slot out of the ring.
    fn get_index(&self, slab: &mut Slab<T, N>) -> (r: Option<usize>)
        requires
            old(slab).wf(),
        ensures
            final(slab).ring_wf(),
            final(slab).head() == old(slab).head(),
            final(slab)@.slots == old(slab)@.slots,
            match r {
                Some(index) => {
                    &&& !old(slab)@.is_full()
                    &&& index == old(slab)@.free[0]
                    &&& index < N
                    &&& final(slab)@.free == old(slab)@.free.drop_first()
                },
                None => old(slab)@.is_full() && *final(slab) == *old(slab),
            },
    {
        if slab.free_used >= N {
            return None;
        }
        let tail = slab.free_queue_tail;
        let val = slab.free_queue[tail];
        slab.free_used = slab.free_used + 1;
        slab.free_queue_tail = if tail + 1 == N {
            0
        } else {
            tail + 1
        };
        slab.free_queue[tail] = usize::MAX;
        proof {
            let n = N as int;
            let t0 = tail as int;
            let t1 = slab.free_queue_tail as int;
            assert(old(slab)@.free[0] == val);
            assert forall|k: int| N - slab.free_used <= k < N implies slab.free_queue@[#[trigger] ring_pos(
                t1,
                k,
                n,
            )] == usize::MAX by {
                if k < N - 1 {
                    assert(ring_pos(t1, k, n) == ring_pos(t0, k + 1, n));
                }
            }
            assert forall|k: int| 0 <= k < slab@.free.len() implies slab@.free[k] == old(
                slab,
            )@.free.drop_first()[k] by {
                assert(ring_pos(t1, k, n) == ring_pos(t0, k + 1, n));
            }
            assert(slab@.free =~= old(slab)@.free.drop_first());
        }
        Some(val)
    }
}

/// The consuming end of a slab: it takes items out.
pub struct SlabReceiver<T, const N: usize> {
    ptr: usize,
    // push location of free_queue
    free_queue_head: usize,
    _marker: PhantomData<T>,
}

impl<T, const N: usize> SlabReceiver<T, N> {
    /// The identity of the slab that this end belongs to.
    pub closed spec fn ptr(&self) -> usize {
        self.ptr
    }

    /// The place in the ring where this end records the next freed slot.
    pub closed spec fn position(&self) -> int {
        self.free_queue_head as int
    }

    /// This end's position in the ring is the one at which `slab` expects the
    /// next freed slot.
    pub open spec fn paired(&self, slab: &Slab<T, N>) -> bool {
        self.position() == slab.head()
    }

    /// Whether `handle` was issued for `slab` through this end's partner and
    /// its item is still in the slab.
    pub open spec fn accepts(&self, slab: &Slab<T, N>, handle: &SlabHandle) -> bool {
        handle.ptr() == self.ptr() && slab@.holds(handle.index())
    }

    /// Decides whether `remove` may be called with `handle`.
    pub fn owns(&self, slab: &Slab<T, N>, handle: &SlabHandle) -> (r: bool)
        requires
            slab.wf(),
        ensures
            r == self.accepts(slab, handle),
    {
        handle.ptr == self.ptr && handle.index < N && slab.slots[handle.index].is_some()
    }

    /// Takes the item of `handle` out of `slab` if the handle belongs there,
    /// and hands the handle back untouched if it does not: a handle issued
    /// under another identity, or one whose slot holds nothing, changes
    /// neither the slab nor this end, and no slot is read for it.
    pub fn try_remove(&mut self, slab: &mut Slab<T, N>, handle: SlabHandle) -> (r: Result<
        T,
        SlabHandle,
    >)
        requires
            old(slab).wf(),
            old(self).paired(old(slab)),
        ensures
            final(slab).wf(),
            final(self).paired(final(slab)),
            final(self).ptr() == old(self).ptr(),
            match r {
                Ok(item) => {
                    &&& old(self).accepts(old(slab), &handle)
                    &&& item == old(slab)@.item_at(handle.index())
                    &&& final(slab)@ == old(slab)@.remove(handle.index())
                },
                Err(back) => {
                    &&& !old(self).accepts(old(slab), &handle)
                    &&& back == handle
                    &&& *final(slab) == *old(slab)
                    &&& *final(self) == *old(self)
                },
            },
    {
        if self.owns(slab, &handle) {
            Ok(self.remove(slab, handle))
        } else {
            Err(handle)
        }
    }

    /// Consumes the handle, takes the item out of its slot and marks the slot
    /// free.
    pub fn remove(&mut self, slab: &mut Slab<T, N>, handle: SlabHandle) -> (item: T)
        requires
            old(slab).wf(),
            old(self).paired(old(slab)),
            old(self).accepts(old(slab), &handle),
        ensures
            final(slab).wf(),
            final(self).paired(final(slab)),
            final(self).ptr() == old(self).ptr(),
            item == old(slab)@.item_at(handle.index()),
            final(slab)@ == old(slab)@.remove(handle.index()),
    {
        proof {
            old(slab)@.lemma_occupied_len();
            assert(old(slab)@.occupied().contains(handle.index));
        }
        let index = handle.index;
        let item = slab.slots[index].take();
        self.return_index(slab, index);
        proof {
            assert(slab@ =~= old(slab)@.remove(index));
            old(slab)@.lemma_remove(index);
        }
        item.unwrap()
    }

    /// Records at the ring's head that slot `index` is free again.
    fn return_index(&mut self, slab: &mut Slab<T, N>, index: usize)
        requires
            old(slab).ring_wf(),
            old(slab).used() > 0,
            old(self).paired(old(slab)),
        ensures
            final(slab).ring_wf(),
            final(self).paired(final(slab)),
            final(self).ptr() == old(self).ptr(),
            final(slab)@.slots == old(slab)@.slots,
            final(slab)@.free == old(slab)@.free.push(index),
    {
        let head = self.free_queue_head;
        slab.free_queue[head] = index;
        slab.free_used = slab.free_used - 1;
        self.free_queue_head = if head + 1 == N {
            0
        } else {
            head + 1
        };
        proof {
            let n = N as int;
            let t = slab.free_queue_tail as int;
            assert forall|k: int| 0 <= k < slab@.free.len() implies slab@.free[k] == old(
                slab,
            )@.free.push(index)[k] by {
                if k < old(slab)@.free.len() {
                    assert(ring_pos(t, k, n) != head);
                }
            }
            assert(slab@.free =~= old(slab)@.free.push(index));
        }
    }
}

} // verus!
