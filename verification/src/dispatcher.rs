//! The start of the dispatcher threads.
//!
//! There is one dispatcher for each priority level. A dispatcher first sets
//! its real-time priority, then arrives at a barrier and waits there until
//! every dispatcher has arrived, and only then takes work from its run queue.
//! This module decides what a dispatcher does next; doing it is up to the
//! thread.

use vstd::prelude::*;

verus! {

/// Where a dispatcher stands.
#[derive(Clone, Copy, Debug, PartialEq, Eq, Structural)]
pub enum DispatcherState {
    /// The thread runs, at whatever priority it was started with.
    Starting,
    /// The thread runs at its real-time priority.
    PrioritySet,
    /// The thread has arrived at the barrier and waits for the others.
    AwaitingBarrier,
    /// The thread takes work from its run queue.
    Dispatching,
}

/// What a dispatcher has to do next.
#[derive(Clone, Copy, Debug, PartialEq, Eq, Structural)]
pub enum Action {
    /// Ask for the real-time priority.
    SetPriority { priority: u8 },
    /// Tell the barrier that this dispatcher is ready.
    ArriveAtBarrier,
    /// Wait until the barrier is open.
    AwaitBarrier,
    /// Receive the next entry of the run queue and run its task.
    Dispatch,
    /// Give up: the whole program ends.
    Abort,
}

/// How the last thing that a dispatcher did has ended.
#[derive(Clone, Copy, Debug, PartialEq, Eq, Structural)]
pub enum Outcome {
    Done,
    Failed,
}

/// The dispatcher at `state` has its real-time priority.
pub open spec fn has_priority(state: DispatcherState) -> bool {
    state != DispatcherState::Starting
}

/// The dispatcher at `state` has arrived at the barrier.
pub open spec fn has_arrived(state: DispatcherState) -> bool {
    state == DispatcherState::AwaitingBarrier || state == DispatcherState::Dispatching
}

/// The number of dispatchers among `states` that have arrived at the barrier.
pub open spec fn arrivals(states: Seq<DispatcherState>) -> nat
    decreases states.len(),
{
    if states.len() == 0 {
        0
    } else {
        arrivals(states.drop_last()) + if has_arrived(states.last()) {
            1nat
        } else {
            0nat
        }
    }
}

/// The state that follows `state` when what the dispatcher did there has
/// ended with `outcome`, given whether the barrier is open by then.
pub open spec fn next_state(state: DispatcherState, outcome: Outcome, open: bool) -> DispatcherState {
    match state {
        DispatcherState::Starting => if outcome == Outcome::Done {
            DispatcherState::PrioritySet
        } else {
            DispatcherState::Starting
        },
        DispatcherState::PrioritySet => DispatcherState::AwaitingBarrier,
        DispatcherState::AwaitingBarrier => if open {
            DispatcherState::Dispatching
        } else {
            DispatcherState::AwaitingBarrier
        },
        DispatcherState::Dispatching => DispatcherState::Dispatching,
    }
}

/// Whether the program has to end when what a dispatcher did at `state` has
/// ended with `outcome`: a priority that was refused and a task that failed
/// are both beyond repair.
pub open spec fn is_fatal(state: DispatcherState, outcome: Outcome) -> bool {
    outcome == Outcome::Failed && (state == DispatcherState::Starting || state
        == DispatcherState::Dispatching)
}

/// The dispatchers of a program and the barrier at which they meet.
pub struct BringUp {
    priorities: Vec<u8>,
    states: Vec<DispatcherState>,
    arrived: usize,
    aborted: bool,
}

impl BringUp {
    /// The priority level of each dispatcher.
    pub closed spec fn priorities(&self) -> Seq<u8> {
        self.priorities@
    }

    /// Where each dispatcher stands.
    pub closed spec fn states(&self) -> Seq<DispatcherState> {
        self.states@
    }

    /// The number of dispatchers that the barrier has counted.
    pub closed spec fn arrived(&self) -> nat {
        self.arrived as nat
    }

    /// Whether the program has been given up.
    pub closed spec fn aborted(&self) -> bool {
        self.aborted
    }

    /// The barrier has counted every dispatcher.
    pub open spec fn is_open(&self) -> bool {
        self.arrived() == self.states().len()
    }

    /// There is a state for each priority level, the barrier has counted
    /// exactly the dispatchers that have arrived, and a dispatcher takes work
    /// only when the barrier is open.
    pub open spec fn wf(&self) -> bool {
        &&& self.states().len() == self.priorities().len()
        &&& self.arrived() == arrivals(self.states())
        &&& forall|i: int|
            0 <= i < self.states().len() && self.states()[i] == DispatcherState::Dispatching
                ==> self.is_open()
    }

    /// One dispatcher for each of the priority levels, all of them starting.
    pub fn new(priorities: Vec<u8>) -> (r: Self)
        ensures
            r.wf(),
            !r.aborted(),
            r.priorities() == priorities@,
            r.arrived() == 0,
            forall|i: int| 0 <= i < priorities@.len() ==> r.states()[i] == DispatcherState::Starting,
    {
        let mut states: Vec<DispatcherState> = Vec::new();
        let mut i: usize = 0;
        while i < priorities.len()
            invariant
                i <= priorities@.len(),
                states@.len() == i,
                forall|j: int| 0 <= j < i ==> states@[j] == DispatcherState::Starting,
                arrivals(states@) == 0,
            decreases priorities@.len() - i,
        {
            proof {
                assert(states@.push(DispatcherState::Starting).drop_last() =~= states@);
            }
            states.push(DispatcherState::Starting);
            i = i + 1;
        }
        BringUp { priorities, states, arrived: 0, aborted: false }
    }

    /// The number of dispatchers.
    pub fn len(&self) -> (n: usize)
        ensures
            n == self.states().len(),
    {
        self.states.len()
    }

    /// Where dispatcher `i` stands.
    pub fn state(&self, i: usize) -> (s: DispatcherState)
        requires
            i < self.states().len(),
        ensures
            s == self.states()[i as int],
    {
        self.states[i]
    }

    /// Whether the barrier is open: every dispatcher has arrived.
    pub fn barrier_open(&self) -> (b: bool)
        ensures
            b == self.is_open(),
    {
        self.arrived == self.states.len()
    }

    /// What dispatcher `i` has to do next.
    pub fn action(&self, i: usize) -> (a: Action)
        requires
            self.wf(),
            i < self.states().len(),
        ensures
            a == if self.aborted() {
                Action::Abort
            } else {
                match self.states()[i as int] {
                    DispatcherState::Starting => Action::SetPriority {
                        priority: self.priorities()[i as int],
                    },
                    DispatcherState::PrioritySet => Action::ArriveAtBarrier,
                    DispatcherState::AwaitingBarrier => Action::AwaitBarrier,
                    DispatcherState::Dispatching => Action::Dispatch,
                }
            },
    {
        if self.aborted {
            return Action::Abort;
        }
        match self.states[i] {
            DispatcherState::Starting => Action::SetPriority { priority: self.priorities[i] },
            DispatcherState::PrioritySet => Action::ArriveAtBarrier,
            DispatcherState::AwaitingBarrier => Action::AwaitBarrier,
            DispatcherState::Dispatching => Action::Dispatch,
        }
    }

    /// Takes note that what dispatcher `i` had to do has ended with
    /// `outcome`, and moves the dispatcher on. A dispatcher that waits at the
    /// barrier moves on only when the barrier is open.
    pub fn advance(&mut self, i: usize, outcome: Outcome)
        requires
            old(self).wf(),
            i < old(self).states().len(),
        ensures
            final(self).wf(),
            final(self).priorities() == old(self).priorities(),
            final(self).aborted() == (old(self).aborted() || is_fatal(
                old(self).states()[i as int],
                outcome,
            )),
            final(self).states() == if old(self).aborted() {
                old(self).states()
            } else {
                old(self).states().update(
                    i as int,
                    next_state(old(self).states()[i as int], outcome, old(self).is_open()),
                )
            },
    {
        if self.aborted {
            return ;
        }
        let state = self.states[i];
        let ghost before = self.states@;
        proof {
            lemma_arrivals_bound(before);
            lemma_arrivals_update(before, i as int, next_state(state, outcome, self.is_open()));
        }
        match state {
            DispatcherState::Starting => {
                match outcome {
                    Outcome::Done => {
                        self.states[i] = DispatcherState::PrioritySet;
                    },
                    Outcome::Failed => {
                        self.aborted = true;
                        proof {
                            assert(before.update(i as int, state) =~= before);
                        }
                    },
                }
            },
            DispatcherState::PrioritySet => {
                let parties = self.states.len();
                proof {
                    lemma_arrivals_not_all(before, i as int);
                    assert(self.arrived < parties);
                }
                self.arrived = self.arrived + 1;
                self.states[i] = DispatcherState::AwaitingBarrier;
            },
            DispatcherState::AwaitingBarrier => {
                if self.arrived == self.states.len() {
                    self.states[i] = DispatcherState::Dispatching;
                } else {
                    proof {
                        assert(before.update(i as int, state) =~= before);
                    }
                }
            },
            DispatcherState::Dispatching => {
                match outcome {
                    Outcome::Done => {},
                    Outcome::Failed => {
                        self.aborted = true;
                    },
                }
                proof {
                    assert(before.update(i as int, state) =~= before);
                }
            },
        }
    }

    /// No task is dispatched before every dispatcher has its real-time
    /// priority: while any dispatcher takes work from its run queue, every
    /// dispatcher has arrived at the barrier, and so has set its priority
    /// before.
    pub proof fn lemma_priorities_before_dispatch(&self, i: int, j: int)
        requires
            self.wf(),
            0 <= i < self.states().len(),
            0 <= j < self.states().len(),
            self.states()[i] == DispatcherState::Dispatching,
        ensures
            has_arrived(self.states()[j]),
            has_priority(self.states()[j]),
    {
        lemma_all_arrived(self.states(), j);
    }
}

/// No more dispatchers have arrived than there are.
pub proof fn lemma_arrivals_bound(states: Seq<DispatcherState>)
    ensures
        arrivals(states) <= states.len(),
    decreases states.len(),
{
    if states.len() > 0 {
        lemma_arrivals_bound(states.drop_last());
    }
}

/// When one dispatcher changes its state, the number of arrivals changes by
/// that dispatcher alone.
pub proof fn lemma_arrivals_update(states: Seq<DispatcherState>, i: int, state: DispatcherState)
    requires
        0 <= i < states.len(),
    ensures
        arrivals(states.update(i, state)) == arrivals(states) - (if has_arrived(states[i]) {
            1int
        } else {
            0int
        }) + (if has_arrived(state) {
            1int
        } else {
            0int
        }),
    decreases states.len(),
{
    let updated = states.update(i, state);
    if i == states.len() - 1 {
        assert(updated.drop_last() =~= states.drop_last());
    } else {
        assert(updated.drop_last() =~= states.drop_last().update(i, state));
        lemma_arrivals_update(states.drop_last(), i, state);
    }
}

/// While one dispatcher has not arrived, the arrivals are fewer than the
/// dispatchers.
pub proof fn lemma_arrivals_not_all(states: Seq<DispatcherState>, i: int)
    requires
        0 <= i < states.len(),
        !has_arrived(states[i]),
    ensures
        arrivals(states) < states.len(),
    decreases states.len(),
{
    lemma_arrivals_bound(states.drop_last());
    if i < states.len() - 1 {
        lemma_arrivals_not_all(states.drop_last(), i);
    }
}

/// When the arrivals are as many as the dispatchers, each dispatcher has
/// arrived.
pub proof fn lemma_all_arrived(states: Seq<DispatcherState>, j: int)
    requires
        0 <= j < states.len(),
        arrivals(states) == states.len(),
    ensures
        has_arrived(states[j]),
{
    if !has_arrived(states[j]) {
        lemma_arrivals_not_all(states, j);
    }
}

} // verus!
