//! Spawning a task: its input goes into the task's slab, and the handle,
//! tagged with the task, goes to the run queue of the task's priority level
//! or, for a later start, to the timer queue.

use crate::rq::{after_receiving, lemma_received_in_sending_order, RunQueue};
use crate::slab::{Slab, SlabHandle, SlabSender, SlabState};
use crate::time::{Duration, Instant};
use crate::tq::{NotReady, TimerQueue};
use vstd::prelude::*;

verus! {

/// Spawns `task` with `input` for the dispatcher to run as soon as it can.
///
/// Hands `input` back if the task's slab is full. The run queue is sized to
/// hold an entry for every slot of every slab that feeds it, so it has room
/// whenever the slab has.
pub fn spawn<T, const N: usize, const Q: usize>(
    sender: &SlabSender<T, N>,
    slab: &mut Slab<T, N>,
    run_queue: &mut RunQueue<(usize, SlabHandle), Q>,
    task: usize,
    input: T,
) -> (r: Result<(), T>)
    requires
        old(slab).wf(),
        old(run_queue).wf(),
        old(run_queue)@.len() < Q || old(slab)@.is_full(),
    ensures
        final(slab).wf(),
        final(slab).head() == old(slab).head(),
        final(run_queue).wf(),
        match r {
            Ok(_) => {
                &&& !old(slab)@.is_full()
                &&& final(slab)@ == old(slab)@.insert(input)
                &&& final(run_queue)@ == old(run_queue)@.push(
                    (task, SlabHandle::at(old(slab)@.next_free(), sender.ptr())),
                )
            },
            Err(back) => {
                &&& old(slab)@.is_full()
                &&& back == input
                &&& final(slab)@ == old(slab)@
                &&& final(run_queue)@ == old(run_queue)@
            },
        },
{
    match sender.insert(slab, input) {
        Ok(handle) => {
            match run_queue.send((task, handle)) {
                Ok(_) => Ok(()),
                Err(_) => vstd::pervasive::unreached(),
            }
        },
        Err(input) => Err(input),
    }
}

/// Spawns `task` with `input` to start at `instant`.
///
/// Hands `input` back if the task's slab is full. On success the result tells
/// whether `instant` is now the earliest deadline in the timer queue, so that
/// the timer has to be set anew. The timer queue is sized to hold an entry
/// for every slot of every slab, so it has room whenever the slab has.
pub fn spawn_at<T, const N: usize, const Q: usize>(
    sender: &SlabSender<T, N>,
    slab: &mut Slab<T, N>,
    timer_queue: &mut TimerQueue<Q>,
    task: usize,
    instant: Instant,
    input: T,
) -> (r: Result<bool, T>)
    requires
        old(slab).wf(),
        old(timer_queue).wf(),
        old(timer_queue)@.len() < TimerQueue::<Q>::capacity() || old(slab)@.is_full(),
    ensures
        final(slab).wf(),
        final(slab).head() == old(slab).head(),
        final(timer_queue).wf(),
        match r {
            Ok(rearm) => {
                &&& !old(slab)@.is_full()
                &&& final(slab)@ == old(slab)@.insert(input)
                &&& final(timer_queue)@ == old(timer_queue)@.insert(
                    (NotReady {
                        handle: SlabHandle::at(old(slab)@.next_free(), sender.ptr()),
                        instant,
                        task,
                    }).key(),
                )
                &&& rearm == TimerQueue::<Q>::none_due(old(timer_queue)@, instant@)
            },
            Err(back) => {
                &&& old(slab)@.is_full()
                &&& back == input
                &&& final(slab)@ == old(slab)@
                &&& final(timer_queue)@ == old(timer_queue)@
            },
        },
{
    match sender.insert(slab, input) {
        Ok(handle) => {
            match timer_queue.enqueue(NotReady { handle, instant, task }) {
                Ok(rearm) => Ok(rearm),
                Err(_) => vstd::pervasive::unreached(),
            }
        },
        Err(input) => Err(input),
    }
}

/// Spawns `task` with `input` to start when `dur` has passed since `now`.
pub fn spawn_after<T, const N: usize, const Q: usize>(
    sender: &SlabSender<T, N>,
    slab: &mut Slab<T, N>,
    timer_queue: &mut TimerQueue<Q>,
    task: usize,
    now: Instant,
    dur: Duration,
    input: T,
) -> (r: Result<bool, T>)
    requires
        old(slab).wf(),
        old(timer_queue).wf(),
        old(timer_queue)@.len() < TimerQueue::<Q>::capacity() || old(slab)@.is_full(),
        now@ + dur@ <= Instant::max_nanos(),
    ensures
        final(slab).wf(),
        final(slab).head() == old(slab).head(),
        final(timer_queue).wf(),
        match r {
            Ok(rearm) => {
                &&& !old(slab)@.is_full()
                &&& final(slab)@ == old(slab)@.insert(input)
                &&& final(timer_queue)@ == old(timer_queue)@.insert(
                    (NotReady {
                        handle: SlabHandle::at(old(slab)@.next_free(), sender.ptr()),
                        instant: Instant::at(now@ + dur@),
                        task,
                    }).key(),
                )
                &&& rearm == TimerQueue::<Q>::none_due(old(timer_queue)@, now@ + dur@)
            },
            Err(back) => {
                &&& old(slab)@.is_full()
                &&& back == input
                &&& final(slab)@ == old(slab)@
                &&& final(timer_queue)@ == old(timer_queue)@
            },
        },
{
    let instant = now + dur;
    proof {
        use_type_invariant(now);
        now.lemma_bounded();
        Instant::lemma_at(now@ + dur@);
    }
    spawn_at(sender, slab, timer_queue, task, instant, input)
}

/// The sum of the numbers in `counts`.
pub open spec fn total(counts: Seq<nat>) -> nat
    decreases counts.len(),
{
    if counts.len() == 0 {
        0
    } else {
        total(counts.drop_last()) + counts.last()
    }
}

/// A sum grows with each of its parts.
proof fn lemma_total_grows(less: Seq<nat>, more: Seq<nat>)
    requires
        less.len() == more.len(),
        forall|i: int| 0 <= i < less.len() ==> less[i] <= more[i],
    ensures
        total(less) <= total(more),
        forall|i: int| 0 <= i < less.len() && less[i] < more[i] ==> total(less) < total(more),
    decreases less.len(),
{
    if less.len() > 0 {
        lemma_total_grows(less.drop_last(), more.drop_last());
        assert forall|i: int| 0 <= i < less.len() && less[i] < more[i] implies total(less) < total(
            more,
        ) by {
            if i < less.len() - 1 {
                assert(less.drop_last()[i] < more.drop_last()[i]);
            }
        }
    }
}

/// A run queue never fills up before the slabs that feed it. Let the queue
/// have room for an entry for every slot of every slab, and let each entry
/// that waits in it stand for a slot that is taken. Then, while the slab of
/// one task still has a free slot, the queue has room too.
pub proof fn lemma_run_queue_has_room(
    used: Seq<nat>,
    capacity: Seq<nat>,
    task: int,
    waiting: nat,
    room: nat,
)
    requires
        used.len() == capacity.len(),
        forall|i: int| 0 <= i < used.len() ==> used[i] <= capacity[i],
        0 <= task < used.len(),
        used[task] < capacity[task],
        waiting <= total(used),
        total(capacity) <= room,
    ensures
        waiting < room,
{
    lemma_total_grows(used, capacity);
}

/// Two inputs spawned for a task one after the other are dispatched in that
/// order: the run queue yields the handle of the first before the handle of
/// the second, and each handle leads to the input it was issued for.
pub proof fn lemma_spawn_order<T>(
    slab: SlabState<T>,
    run_queue: Seq<(usize, SlabHandle)>,
    task: usize,
    ptr: usize,
    first: T,
    second: T,
)
    requires
        slab.wf(),
        slab.free.len() >= 2,
    ensures
        ({
            let one = slab.insert(first);
            let two = one.insert(second);
            let first_handle = SlabHandle::at(slab.next_free(), ptr);
            let second_handle = SlabHandle::at(one.next_free(), ptr);
            let sent = run_queue.push((task, first_handle)).push((task, second_handle));
            &&& after_receiving(sent, run_queue.len())[0] == (task, first_handle)
            &&& after_receiving(sent, (run_queue.len() + 1) as nat)[0] == (task, second_handle)
            &&& two.holds(first_handle.index())
            &&& two.item_at(first_handle.index()) == first
            &&& two.remove(first_handle.index()).holds(second_handle.index())
            &&& two.remove(first_handle.index()).item_at(second_handle.index()) == second
        }),
{
    let one = slab.insert(first);
    let two = one.insert(second);
    let first_handle = SlabHandle::at(slab.next_free(), ptr);
    let second_handle = SlabHandle::at(one.next_free(), ptr);
    lemma_received_in_sending_order(run_queue, (task, first_handle), (task, second_handle));
    SlabHandle::lemma_at(slab.next_free(), ptr);
    SlabHandle::lemma_at(one.next_free(), ptr);
    slab.lemma_insert(first);
    one.lemma_insert(second);
    one.lemma_held_item_stays(slab.next_free(), second, one.next_free());
    two.lemma_held_item_stays(one.next_free(), second, slab.next_free());
}

} // verus!
