//! The run queue of a priority level: a bounded queue from which the
//! dispatcher takes work in the order in which it was sent.

use std::collections::VecDeque;
use vstd::prelude::*;

verus! {

/// A first-in, first-out queue with room for `N` items.
///
/// The view is the sequence of waiting items, the next to be received first.
pub struct RunQueue<T, const N: usize> {
    items: VecDeque<T>,
}

impl<T, const N: usize> View for RunQueue<T, N> {
    type V = Seq<T>;

    closed spec fn view(&self) -> Seq<T> {
        self.items@
    }
}

/// What is left of `queue` after `n` items were received from it.
pub open spec fn after_receiving<T>(queue: Seq<T>, n: nat) -> Seq<T>
    decreases n,
{
    if n == 0 {
        queue
    } else {
        after_receiving(queue.drop_first(), (n - 1) as nat)
    }
}

/// Receiving `n` items takes the first `n` items away and leaves the rest in
/// their order.
pub proof fn lemma_after_receiving<T>(queue: Seq<T>, n: nat)
    requires
        n <= queue.len(),
    ensures
        after_receiving(queue, n) == queue.skip(n as int),
    decreases n,
{
    if n == 0 {
        assert(queue.skip(0) =~= queue);
    } else {
        lemma_after_receiving(queue.drop_first(), (n - 1) as nat);
        assert(queue.drop_first().skip(n - 1) =~= queue.skip(n as int));
    }
}

/// First in, first out. Of two items sent one after the other, the first is
/// received as soon as everything that waited before it has been received,
/// and the second is received right after it.
pub proof fn lemma_received_in_sending_order<T>(queue: Seq<T>, first: T, second: T)
    ensures
        after_receiving(queue.push(first).push(second), queue.len())[0] == first,
        after_receiving(queue.push(first).push(second), (queue.len() + 1) as nat)[0] == second,
        after_receiving(queue.push(first).push(second), (queue.len() + 2) as nat) == Seq::<T>::empty(),
{
    let sent = queue.push(first).push(second);
    lemma_after_receiving(sent, queue.len());
    lemma_after_receiving(sent, (queue.len() + 1) as nat);
    lemma_after_receiving(sent, (queue.len() + 2) as nat);
    assert(sent.skip(queue.len() + 2 as int) =~= Seq::<T>::empty());
}

/// The queue after `rounds` rounds in each of which the item at the front is
/// received and the next of `sent` is sent.
pub open spec fn after_rounds<T>(queue: Seq<T>, sent: Seq<T>, rounds: nat) -> Seq<T>
    decreases rounds,
{
    if rounds == 0 {
        queue
    } else {
        after_rounds(queue, sent, (rounds - 1) as nat).drop_first().push(sent[rounds - 1])
    }
}

/// Two tasks that spawn each other take strict turns, for as long as they go
/// on. Let one item wait, and let each round receive the item at the front
/// and send a new one, as a task does that spawns its partner when it runs.
/// Then what a round receives is what the round before it sent, and after
/// every round exactly the item just sent waits.
pub proof fn lemma_strict_turns<T>(first: T, sent: Seq<T>, rounds: nat)
    requires
        0 < rounds <= sent.len(),
    ensures
        after_rounds(seq![first], sent, rounds) == seq![sent[rounds - 1]],
        after_rounds(seq![first], sent, (rounds - 1) as nat)[0] == if rounds == 1 {
            first
        } else {
            sent[rounds - 2]
        },
    decreases rounds,
{
    let before = after_rounds(seq![first], sent, (rounds - 1) as nat);
    if rounds > 1 {
        lemma_strict_turns(first, sent, (rounds - 1) as nat);
    }
    assert(before.drop_first().push(sent[rounds - 1]) =~= seq![sent[rounds - 1]]);
}

impl<T, const N: usize> RunQueue<T, N> {
    /// The queue holds no more than `N` items.
    pub open spec fn wf(&self) -> bool {
        self@.len() <= N
    }

    /// An empty queue.
    pub fn new() -> (queue: Self)
        ensures
            queue.wf(),
            queue@ == Seq::<T>::empty(),
    {
        RunQueue { items: VecDeque::new() }
    }

    /// The number of items that wait.
    pub fn len(&self) -> (n: usize)
        ensures
            n == self@.len(),
    {
        self.items.len()
    }

    /// Whether nothing waits.
    pub fn is_empty(&self) -> (b: bool)
        ensures
            b == (self@.len() == 0),
    {
        self.items.len() == 0
    }

    /// Whether the queue has no room left.
    pub fn is_full(&self) -> (b: bool)
        ensures
            b == (self@.len() >= N),
    {
        self.items.len() >= N
    }

    /// Puts `item` at the end of the queue, or hands it back if the queue
    /// already holds `N` items.
    pub fn send(&mut self, item: T) -> (r: Result<(), T>)
        requires
            old(self).wf(),
        ensures
            final(self).wf(),
            match r {
                Ok(_) => old(self)@.len() < N && final(self)@ == old(self)@.push(item),
                Err(back) => old(self)@.len() >= N && back == item && final(self)@ == old(self)@,
            },
    {
        if self.items.len() >= N {
            return Err(item);
        }
        self.items.push_back(item);
        Ok(())
    }

    /// Takes the item at the front of the queue, the one that has waited
    /// longest. Returns `None` if nothing waits.
    pub fn try_recv(&mut self) -> (r: Option<T>)
        requires
            old(self).wf(),
        ensures
            final(self).wf(),
            match r {
                Some(item) => {
                    &&& old(self)@.len() > 0
                    &&& item == old(self)@[0]
                    &&& final(self)@ == old(self)@.drop_first()
                },
                None => old(self)@.len() == 0 && final(self)@ == old(self)@,
            },
    {
        self.items.pop_front()
    }
}

} // verus!
