//! The bounded min-heap that the timer queue rests on.
//!
//! The heap orders tuples of integers. It is opaque here: what it holds is
//! kept beside it as a multiset, which nothing but the five functions of this
//! file sets, each in step with the function of the heap that it calls.

use heapless::binary_heap::Min;
use heapless::BinaryHeap;
use vstd::multiset::Multiset;
use vstd::prelude::*;

verus! {

/// `heapless::BinaryHeap`: a priority queue with room for `N` items of type
/// `T`, of which nothing is known here but what the functions below state.
#[verifier::external_type_specification]
#[verifier::external_body]
#[verifier::reject_recursive_types(T)]
#[verifier::reject_recursive_types(K)]
pub struct ExBinaryHeap<T, K, const N: usize>(BinaryHeap<T, K, N>);

/// `heapless::binary_heap::Min`: the mark of a heap whose top is its smallest
/// item.
#[verifier::external_type_specification]
#[verifier::external_body]
pub struct ExMin(Min);

/// The order of the heap: tuples compare component by component, the first
/// difference deciding.
pub open spec fn key_le(a: (i64, i64, usize, usize, usize), b: (i64, i64, usize, usize, usize)) -> bool {
    if a.0 != b.0 {
        a.0 < b.0
    } else if a.1 != b.1 {
        a.1 < b.1
    } else if a.2 != b.2 {
        a.2 < b.2
    } else if a.3 != b.3 {
        a.3 < b.3
    } else {
        a.4 <= b.4
    }
}

/// `key` is in `entries` and nothing in `entries` comes before it.
pub open spec fn is_least(
    key: (i64, i64, usize, usize, usize),
    entries: Multiset<(i64, i64, usize, usize, usize)>,
) -> bool {
    &&& entries.contains(key)
    &&& forall|other: (i64, i64, usize, usize, usize)| #[trigger]
        entries.contains(other) ==> key_le(key, other)
}

/// A min-heap with room for `N` keys.
///
/// The view is what the heap holds: each key as often as it was pushed and
/// not yet popped.
pub struct DeadlineHeap<const N: usize> {
    heap: BinaryHeap<(i64, i64, usize, usize, usize), Min, N>,
    entries: Ghost<Multiset<(i64, i64, usize, usize, usize)>>,
}

impl<const N: usize> View for DeadlineHeap<N> {
    type V = Multiset<(i64, i64, usize, usize, usize)>;

    closed spec fn view(&self) -> Multiset<(i64, i64, usize, usize, usize)> {
        self.entries@
    }
}

/// `heapless::BinaryHeap::new`: a heap without entries.
#[verifier::external_body]
pub(crate) fn heap_new<const N: usize>() -> (heap: DeadlineHeap<N>)
    ensures
        heap@ == Multiset::<(i64, i64, usize, usize, usize)>::empty(),
{
    DeadlineHeap { heap: BinaryHeap::new(), entries: Ghost(Multiset::empty()) }
}

/// `heapless::BinaryHeap::len`: the number of entries.
#[verifier::external_body]
pub(crate) fn heap_len<const N: usize>(heap: &DeadlineHeap<N>) -> (n: usize)
    ensures
        n == heap@.len(),
{
    heap.heap.len()
}

/// `heapless::BinaryHeap::push`: adds the entry unless the heap already holds
/// the `N` entries that it has room for, in which case it hands the entry
/// back and stays as it was.
#[verifier::external_body]
pub(crate) fn heap_push<const N: usize>(
    heap: &mut DeadlineHeap<N>,
    key: (i64, i64, usize, usize, usize),
) -> (r: Result<(), (i64, i64, usize, usize, usize)>)
    ensures
        match r {
            Ok(_) => {
                &&& old(heap)@.len() < N
                &&& final(heap)@ == old(heap)@.insert(key)
            },
            Err(back) => {
                &&& old(heap)@.len() >= N
                &&& back == key
                &&& final(heap)@ == old(heap)@
            },
        },
{
    heap.heap.push(key)
}

/// `heapless::BinaryHeap::peek` on a min-heap: the smallest entry, or `None`
/// if there is no entry.
#[verifier::external_body]
pub(crate) fn heap_peek<const N: usize>(heap: &DeadlineHeap<N>) -> (r: Option<
    (i64, i64, usize, usize, usize),
>)
    ensures
        match r {
            Some(key) => is_least(key, heap@),
            None => heap@.len() == 0,
        },
{
    heap.heap.peek().copied()
}

/// `heapless::BinaryHeap::pop` on a min-heap: takes the smallest entry out
/// and returns it, or returns `None` if there is no entry.
#[verifier::external_body]
pub(crate) fn heap_pop<const N: usize>(heap: &mut DeadlineHeap<N>) -> (r: Option<
    (i64, i64, usize, usize, usize),
>)
    ensures
        match r {
            Some(key) => {
                &&& is_least(key, old(heap)@)
                &&& final(heap)@ == old(heap)@.remove(key)
            },
            None => {
                &&& old(heap)@.len() == 0
                &&& final(heap)@ == old(heap)@
            },
        },
{
    heap.heap.pop()
}

} // verus!
