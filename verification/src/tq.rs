//! The queue of tasks that wait for their deadline.
//!
//! Entries rest in a bounded min-heap, ordered by deadline. The heap orders
//! plain tuples, so an entry goes in as its [`NotReady::key`] and is put
//! together again when it comes out.

use crate::heap::{heap_len, heap_new, heap_peek, heap_pop, heap_push, is_least, key_le, DeadlineHeap};
use crate::slab::SlabHandle;
use crate::time::Instant;
use vstd::multiset::Multiset;
use vstd::prelude::*;

verus! {

/// A multiset without length has no element.
proof fn lemma_nothing_in_empty(entries: Multiset<(i64, i64, usize, usize, usize)>)
    ensures
        entries.len() == 0 ==> forall|key: (i64, i64, usize, usize, usize)|
            !(#[trigger] entries.contains(key)),
{
    vstd::multiset::lemma_multiset_empty_len(entries);
}

/// The reading, in nanoseconds, of the deadline that a key starts with.
pub open spec fn key_nanos(key: (i64, i64, usize, usize, usize)) -> int {
    key.0 * 1_000_000_000 + key.1
}

/// The nanosecond part of the key's deadline is below one second.
pub open spec fn key_valid(key: (i64, i64, usize, usize, usize)) -> bool {
    0 <= key.1 < 1_000_000_000
}

/// The keys of a sequence of entries, in the same order.
pub open spec fn keys_of(entries: Seq<NotReady>) -> Seq<(i64, i64, usize, usize, usize)> {
    entries.map_values(|nr: NotReady| nr.key())
}

/// Each key in the sequence comes no later in the heap's order than those
/// after it.
pub open spec fn keys_ascend(keys: Seq<(i64, i64, usize, usize, usize)>) -> bool {
    forall|i: int, j: int| 0 <= i <= j < keys.len() ==> key_le(#[trigger] keys[i], #[trigger] keys[j])
}

/// The order of keys goes by deadline first: a key that comes no later than
/// another has no later a deadline.
pub proof fn lemma_key_order_is_deadline_order(
    a: (i64, i64, usize, usize, usize),
    b: (i64, i64, usize, usize, usize),
)
    requires
        key_valid(a),
        key_valid(b),
        key_le(a, b),
    ensures
        key_nanos(a) <= key_nanos(b),
{
}

/// Entries leave a queue in nondecreasing order of deadline: whatever comes
/// out next, once the earliest entry is gone, is due no earlier than that
/// entry was.
pub proof fn lemma_fire_order(
    entries: Multiset<(i64, i64, usize, usize, usize)>,
    first: (i64, i64, usize, usize, usize),
    second: (i64, i64, usize, usize, usize),
)
    requires
        forall|key: (i64, i64, usize, usize, usize)| #[trigger]
            entries.contains(key) ==> key_valid(key),
        is_least(first, entries),
        is_least(second, entries.remove(first)),
    ensures
        key_nanos(first) <= key_nanos(second),
{
    assert(entries.remove(first).count(second) <= entries.count(second));
    assert(entries.contains(second));
    lemma_key_order_is_deadline_order(first, second);
}

/// The least of valid keys has the earliest deadline.
proof fn lemma_least_is_earliest(
    head: (i64, i64, usize, usize, usize),
    entries: Multiset<(i64, i64, usize, usize, usize)>,
)
    requires
        is_least(head, entries),
        forall|key: (i64, i64, usize, usize, usize)| #[trigger]
            entries.contains(key) ==> key_valid(key),
    ensures
        forall|other: (i64, i64, usize, usize, usize)| #[trigger]
            entries.contains(other) ==> key_nanos(head) <= key_nanos(other),
{
    assert forall|other: (i64, i64, usize, usize, usize)| #[trigger]
        entries.contains(other) implies key_nanos(head) <= key_nanos(other) by {
        assert(key_le(head, other));
    }
}

/// Taking out a key that is there leaves one key fewer and nothing new.
proof fn lemma_remove_one(
    entries: Multiset<(i64, i64, usize, usize, usize)>,
    key: (i64, i64, usize, usize, usize),
)
    requires
        entries.contains(key),
    ensures
        entries.remove(key).len() == entries.len() - 1,
        forall|other: (i64, i64, usize, usize, usize)| #[trigger]
            entries.remove(key).contains(other) ==> entries.contains(other),
{
    assert(Multiset::singleton(key).subset_of(entries)) by {
        assert forall|other: (i64, i64, usize, usize, usize)|
            Multiset::singleton(key).count(other) <= entries.count(other) by {
            if other != key {
                assert(Multiset::singleton(key).count(other) == 0);
            }
        }
    }
    assert forall|other: (i64, i64, usize, usize, usize)| #[trigger]
        entries.remove(key).contains(other) implies entries.contains(other) by {
        assert(entries.remove(key).count(other) <= entries.count(other));
    }
}

/// A task that waits for its deadline.
#[derive(Debug)]
pub struct NotReady {
    /// Where the task's input is kept.
    pub handle: SlabHandle,
    /// The deadline.
    pub instant: Instant,
    /// Which task is to run.
    pub task: usize,
}

impl NotReady {
    /// The entry as the heap holds it: the deadline's seconds and
    /// nanoseconds, the task, and the handle's slot and slab.
    pub open spec fn key(&self) -> (i64, i64, usize, usize, usize) {
        (
            (self.instant@ / 1_000_000_000) as i64,
            (self.instant@ % 1_000_000_000) as i64,
            self.task,
            self.handle.index(),
            self.handle.ptr(),
        )
    }

    /// The key says everything about an entry: two entries with the same key
    /// are the same entry.
    pub proof fn lemma_key_determines_entry(self, other: NotReady)
        requires
            self.instant.wf(),
            other.instant.wf(),
            self.key() == other.key(),
        ensures
            self == other,
    {
        self.instant.lemma_bounded();
        other.instant.lemma_bounded();
        self.instant.lemma_same_reading(other.instant);
        self.handle.lemma_same_parts(other.handle);
    }

    /// The key of an entry carries the entry's deadline.
    pub proof fn lemma_key_nanos(self)
        requires
            self.instant.wf(),
        ensures
            key_valid(self.key()),
            key_nanos(self.key()) == self.instant@,
    {
        self.instant.lemma_bounded();
    }

    fn to_key(&self) -> (key: (i64, i64, usize, usize, usize))
        ensures
            key == self.key(),
            key_valid(key),
            key_nanos(key) == self.instant@,
            self.instant.wf(),
    {
        proof {
            use_type_invariant(&self.instant);
        }
        let (index, ptr) = self.handle.parts();
        (self.instant.tv_sec(), self.instant.tv_nsec(), self.task, index, ptr)
    }

    fn from_key(key: (i64, i64, usize, usize, usize)) -> (nr: NotReady)
        requires
            key_valid(key),
        ensures
            nr.key() == key,
            nr.instant.wf(),
            nr.instant@ == key_nanos(key),
    {
        let instant = match Instant::from_timespec(key.0, key.1) {
            Some(instant) => instant,
            None => vstd::pervasive::unreached(),
        };
        NotReady { handle: SlabHandle::from_parts(key.3, key.4), instant, task: key.2 }
    }
}

/// A bounded queue of entries that come out earliest deadline first. It has
/// room for `N` entries.
pub struct TimerQueue<const N: usize> {
    queue: DeadlineHeap<N>,
}

impl<const N: usize> View for TimerQueue<N> {
    type V = Multiset<(i64, i64, usize, usize, usize)>;

    /// The keys of the entries that wait.
    closed spec fn view(&self) -> Multiset<(i64, i64, usize, usize, usize)> {
        self.queue@
    }
}

impl<const N: usize> TimerQueue<N> {
    /// The number of entries that the queue has room for.
    pub open spec fn capacity() -> nat {
        N as nat
    }

    /// The queue is within its capacity and every key in it is valid.
    pub open spec fn wf(&self) -> bool {
        &&& self@.len() <= Self::capacity()
        &&& forall|key: (i64, i64, usize, usize, usize)| #[trigger]
            self@.contains(key) ==> key_valid(key)
    }

    /// Every entry in `entries` has a deadline after `now`.
    pub open spec fn none_due(entries: Multiset<(i64, i64, usize, usize, usize)>, now: int) -> bool {
        forall|key: (i64, i64, usize, usize, usize)| #[trigger]
            entries.contains(key) ==> now < key_nanos(key)
    }

    /// An empty queue.
    pub fn new() -> (tq: Self)
        ensures
            tq.wf(),
            tq@ == Multiset::<(i64, i64, usize, usize, usize)>::empty(),
    {
        let tq = TimerQueue { queue: heap_new() };
        proof {
            lemma_nothing_in_empty(tq@);
        }
        tq
    }

    /// The number of entries that wait.
    pub fn len(&self) -> (n: usize)
        ensures
            n == self@.len(),
    {
        heap_len(&self.queue)
    }

    /// Whether the queue has no room left.
    pub fn is_full(&self) -> (b: bool)
        ensures
            b == (self@.len() >= Self::capacity()),
    {
        heap_len(&self.queue) >= N
    }

    /// Puts an entry into the queue, or hands it back if the queue already
    /// holds `N` entries. On success the result tells whether the entry's
    /// deadline is now the earliest of all, so that whoever sleeps until the
    /// earliest deadline has to be woken.
    pub fn enqueue(&mut self, nr: NotReady) -> (r: Result<bool, NotReady>)
        requires
            old(self).wf(),
        ensures
            final(self).wf(),
            match r {
                Ok(rearm) => {
                    &&& old(self)@.len() < N
                    &&& final(self)@ == old(self)@.insert(nr.key())
                    &&& rearm == Self::none_due(old(self)@, nr.instant@)
                },
                Err(back) => {
                    &&& old(self)@.len() >= N
                    &&& back == nr
                    &&& final(self)@ == old(self)@
                },
            },
    {
        let key = nr.to_key();
        let rearm = match heap_peek(&self.queue) {
            Some(head) => {
                proof {
                    lemma_least_is_earliest(head, old(self)@);
                }
                key.0 < head.0 || (key.0 == head.0 && key.1 < head.1)
            },
            None => {
                proof {
                    lemma_nothing_in_empty(old(self)@);
                }
                true
            },
        };
        match heap_push(&mut self.queue, key) {
            Ok(_) => {
                proof {
                    assert forall|other: (i64, i64, usize, usize, usize)| #[trigger]
                        self@.contains(other) implies key_valid(other) by {
                        if other != key {
                            assert(old(self)@.contains(other));
                        }
                    }
                }
                Ok(rearm)
            },
            Err(_) => Err(nr),
        }
    }

    /// Takes the entry with the earliest deadline out of the queue if that
    /// deadline is not after `now`. Returns `None`, and leaves the queue as it
    /// is, if no entry is due.
    pub fn dequeue(&mut self, now: Instant) -> (r: Option<NotReady>)
        requires
            old(self).wf(),
        ensures
            final(self).wf(),
            match r {
                Some(nr) => {
                    &&& is_least(nr.key(), old(self)@)
                    &&& nr.instant.wf()
                    &&& nr.instant@ == key_nanos(nr.key())
                    &&& nr.instant@ <= now@
                    &&& final(self)@ == old(self)@.remove(nr.key())
                },
                None => {
                    &&& Self::none_due(old(self)@, now@)
                    &&& final(self)@ == old(self)@
                },
            },
    {
        let now_sec = now.tv_sec();
        let now_nsec = now.tv_nsec();
        match heap_peek(&self.queue) {
            Some(head) => {
                proof {
                    lemma_least_is_earliest(head, old(self)@);
                }
                if head.0 < now_sec || (head.0 == now_sec && head.1 <= now_nsec) {
                    match heap_pop(&mut self.queue) {
                        Some(key) => {
                            proof {
                                assert(key_le(key, head) && key_le(head, key));
                                lemma_remove_one(old(self)@, key);
                            }
                            Some(NotReady::from_key(key))
                        },
                        None => None,
                    }
                } else {
                    None
                }
            },
            None => {
                proof {
                    lemma_nothing_in_empty(old(self)@);
                }
                None
            },
        }
    }

    /// Takes out every entry whose deadline is not after `now`, earliest
    /// deadline first, and leaves those that are not due yet.
    pub fn drain_ready(&mut self, now: Instant) -> (fired: Vec<NotReady>)
        requires
            old(self).wf(),
        ensures
            final(self).wf(),
            old(self)@ == final(self)@.add(keys_of(fired@).to_multiset()),
            Self::none_due(final(self)@, now@),
            keys_ascend(keys_of(fired@)),
            forall|i: int|
                0 <= i < fired@.len() ==> (#[trigger] fired@[i]).instant.wf() && fired@[i].instant@
                    <= now@,
            forall|i: int, j: int|
                0 <= i <= j < fired@.len() ==> (#[trigger] fired@[i]).instant@ <= (
                #[trigger] fired@[j]).instant@,
    {
        let mut fired: Vec<NotReady> = Vec::new();
        proof {
            keys_of(fired@).to_multiset_ensures();
            vstd::multiset::lemma_multiset_empty_len(keys_of(fired@).to_multiset());
            assert(old(self)@ =~= self@.add(keys_of(fired@).to_multiset()));
        }
        loop
            invariant
                self.wf(),
                old(self)@ == self@.add(keys_of(fired@).to_multiset()),
                keys_ascend(keys_of(fired@)),
                forall|i: int|
                    0 <= i < fired@.len() ==> (#[trigger] fired@[i]).instant.wf()
                        && fired@[i].instant@ <= now@,
                forall|i: int, key: (i64, i64, usize, usize, usize)|
                    #![trigger fired@[i], self@.contains(key)]
                    0 <= i < fired@.len() && self@.contains(key) ==> key_le(fired@[i].key(), key),
            ensures
                Self::none_due(self@, now@),
            decreases self@.len(),
        {
            let ghost before = self@;
            let ghost keys = keys_of(fired@);
            match self.dequeue(now) {
                Some(nr) => {
                    proof {
                        let key = nr.key();
                        lemma_remove_one(before, key);
                        assert(keys_of(fired@.push(nr)) =~= keys.push(key));
                        vstd::seq_lib::to_multiset_build(keys, key);
                        assert(self@.add(keys.push(key).to_multiset()) =~= before.add(
                            keys.to_multiset(),
                        ));
                        assert forall|i: int, j: int| 0 <= i <= j < keys.len() + 1 implies key_le(
                            #[trigger] keys.push(key)[i],
                            #[trigger] keys.push(key)[j],
                        ) by {
                            if j == keys.len() && i < j {
                                assert(keys[i] == fired@[i].key());
                            }
                        }
                        assert forall|i: int, other: (i64, i64, usize, usize, usize)|
                            #![trigger fired@.push(nr)[i], self@.contains(other)]
                            0 <= i < fired@.len() + 1 && self@.contains(other) implies key_le(
                            fired@.push(nr)[i].key(),
                            other,
                        ) by {
                            assert(before.contains(other));
                            if i < fired@.len() {
                                assert(fired@.push(nr)[i] == fired@[i]);
                            }
                        }
                    }
                    fired.push(nr);
                },
                None => {
                    break ;
                },
            }
        }
        proof {
            assert forall|i: int, j: int| 0 <= i <= j < fired@.len() implies (
            #[trigger] fired@[i]).instant@ <= (#[trigger] fired@[j]).instant@ by {
                let a = keys_of(fired@)[i];
                let b = keys_of(fired@)[j];
                assert(key_le(a, b));
                fired@[i].lemma_key_nanos();
                fired@[j].lemma_key_nanos();
            }
        }
        fired
    }

    /// The instant until which nothing in the queue is due: the earliest
    /// deadline, or the far end of time if the queue is empty.
    pub fn next_deadline(&self) -> (t: Instant)
        requires
            self.wf(),
        ensures
            t.wf(),
            self@.len() == 0 ==> t@ == i64::MAX * 1_000_000_000,
            self@.len() > 0 ==> exists|key: (i64, i64, usize, usize, usize)|
                is_least(key, self@) && t@ == key_nanos(key),
            forall|key: (i64, i64, usize, usize, usize)| #[trigger]
                self@.contains(key) ==> t@ <= key_nanos(key),
    {
        let (tv_sec, tv_nsec) = match heap_peek(&self.queue) {
            Some(head) => {
                proof {
                    lemma_least_is_earliest(head, self@);
                    lemma_nothing_in_empty(self@);
                }
                (head.0, head.1)
            },
            None => {
                proof {
                    lemma_nothing_in_empty(self@);
                }
                (i64::MAX, 0)
            },
        };
        match Instant::from_timespec(tv_sec, tv_nsec) {
            Some(t) => t,
            None => vstd::pervasive::unreached(),
        }
    }
}

} // verus!
