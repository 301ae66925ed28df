//! What the runtime is sized and configured by: queue capacities, resource
//! ceilings, and the way each task reaches a shared resource.

use vstd::prelude::*;

verus! {

/// The priority of the thread that serves the timer queue.
pub const TIMER_PRIORITY: u8 = 50;

/// `p` is a power of two.
pub open spec fn is_power_of_two(p: nat) -> bool
    decreases p,
{
    if p <= 1 {
        p == 1
    } else {
        p % 2 == 0 && is_power_of_two(p / 2)
    }
}

/// The smallest power of two that is not below `capacity`, or `None` if that
/// power does not fit the type.
pub fn next_power_of_two(capacity: u8) -> (r: Option<u8>)
    ensures
        r is None <==> capacity > 128,
        r matches Some(p) ==> {
            &&& is_power_of_two(p as nat)
            &&& capacity <= p
            &&& forall|q: nat| is_power_of_two(q) && capacity <= q ==> p <= q
        },
{
    if capacity > 128 {
        return None;
    }
    let mut p: u8 = 1;
    while p < capacity
        invariant
            capacity <= 128,
            1 <= p <= 128,
            is_power_of_two(p as nat),
            forall|q: nat| is_power_of_two(q) && capacity <= q ==> p <= q,
        decreases 128 - p,
    {
        proof {
            assert forall|q: nat| is_power_of_two(q) && capacity <= q implies 2 * p <= q by {
                lemma_powers_double(p as nat, q);
            }
            assert(is_power_of_two((2 * p) as nat)) by {
                assert((2 * p) as nat / 2 == p as nat);
            }
            lemma_power_bound(p as nat);
        }
        p = 2 * p;
    }
    Some(p)
}

/// Between a power of two and its double lies no other power of two.
proof fn lemma_powers_double(p: nat, q: nat)
    requires
        is_power_of_two(p),
        is_power_of_two(q),
        p < q,
    ensures
        2 * p <= q,
    decreases q,
{
    if p > 1 {
        lemma_powers_double(p / 2, q / 2);
    }
}

/// A power of two below 128 is at most 64.
proof fn lemma_power_bound(p: nat)
    requires
        is_power_of_two(p),
        p < 128,
    ensures
        p <= 64,
{
    assert(is_power_of_two(128)) by {
        reveal_with_fuel(is_power_of_two, 9);
    }
    lemma_powers_double(p, 128);
}

/// The sum of the capacities in `capacities`.
pub open spec fn total_capacity(capacities: Seq<u8>) -> nat
    decreases capacities.len(),
{
    if capacities.len() == 0 {
        0
    } else {
        total_capacity(capacities.drop_last()) + capacities.last() as nat
    }
}

/// The number of entries that the timer queue must have room for: one for
/// every input that any task can hold, so the sum of the tasks' capacities.
/// `None` if the sum is beyond what a `usize` holds.
pub fn timer_queue_capacity(capacities: &Vec<u8>) -> (r: Option<usize>)
    ensures
        r is Some <==> total_capacity(capacities@) <= usize::MAX,
        r matches Some(sum) ==> sum == total_capacity(capacities@),
{
    let mut sum: usize = 0;
    let mut i: usize = 0;
    while i < capacities.len()
        invariant
            i <= capacities@.len(),
            sum == total_capacity(capacities@.take(i as int)),
        decreases capacities@.len() - i,
    {
        proof {
            assert(capacities@.take(i + 1).drop_last() =~= capacities@.take(i as int));
            lemma_total_capacity_grows(capacities@, i + 1);
        }
        let capacity = capacities[i] as usize;
        if capacity > usize::MAX - sum {
            return None;
        }
        sum = sum + capacity;
        i = i + 1;
    }
    proof {
        assert(capacities@.take(i as int) =~= capacities@);
    }
    Some(sum)
}

/// The sum over a part from the start is no more than the sum over all.
proof fn lemma_total_capacity_grows(capacities: Seq<u8>, n: int)
    requires
        0 <= n <= capacities.len(),
    ensures
        total_capacity(capacities.take(n)) <= total_capacity(capacities),
    decreases capacities.len() - n,
{
    if n < capacities.len() {
        lemma_total_capacity_grows(capacities, n + 1);
        assert(capacities.take(n + 1).drop_last() =~= capacities.take(n));
    } else {
        assert(capacities.take(n) =~= capacities);
    }
}

/// Who uses a shared resource.
#[derive(Clone, Copy, Debug, PartialEq, Eq, Structural)]
pub enum Ownership {
    /// Owned by a single task
    Owned {
        /// Priority of the task that owns this resource
        priority: u8,
    },
    /// "Co-owned" by more than one task; all of them have the same priority
    CoOwned {
        /// Priority of the tasks that co-own this resource
        priority: u8,
    },
    /// Contended by tasks that run at different priorities
    Contended {
        /// Priority ceiling
        ceiling: u8,
    },
}

/// The ceiling of a shared resource: the highest priority among the tasks
/// that use it, and 0 for a resource that no task uses.
pub fn ceiling(ownership: Option<Ownership>) -> (c: u8)
    ensures
        c == match ownership {
            Some(Ownership::Owned { priority }) => priority,
            Some(Ownership::CoOwned { priority }) => priority,
            Some(Ownership::Contended { ceiling }) => ceiling,
            None => 0u8,
        },
{
    match ownership {
        Some(Ownership::Owned { priority }) => priority,
        Some(Ownership::CoOwned { priority }) => priority,
        Some(Ownership::Contended { ceiling }) => ceiling,
        None => 0,
    }
}

/// How a task reaches a shared resource.
#[derive(Clone, Copy, Debug, PartialEq, Eq, Structural)]
pub enum SharedAccess {
    /// Through a proxy that locks the resource for the time of each access.
    Proxy,
    /// Through a plain reference, without locking.
    Reference {
        /// The reference allows writing.
        exclusive: bool,
        /// The reference lasts as long as the program.
        forever: bool,
    },
}

/// Decides how a task reaches a shared resource.
///
/// A resource that is free of locks is handed out by reference, for writing
/// where the task asked for exclusive access; the reference lasts forever
/// where the task runs once. Any other resource is handed out by shared
/// reference where the task only reads it, and through a locking proxy where
/// the task asked for exclusive access.
pub fn shared_access(lock_free: bool, exclusive: bool, runs_once: bool) -> (access: SharedAccess)
    ensures
        access == if lock_free {
            SharedAccess::Reference { exclusive, forever: runs_once }
        } else if exclusive {
            SharedAccess::Proxy
        } else {
            SharedAccess::Reference { exclusive: false, forever: false }
        },
{
    if !lock_free {
        if !exclusive {
            SharedAccess::Reference { exclusive: false, forever: false }
        } else {
            SharedAccess::Proxy
        }
    } else {
        SharedAccess::Reference { exclusive, forever: runs_once }
    }
}

} // verus!
