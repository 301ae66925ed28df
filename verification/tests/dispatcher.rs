use linux_rtic::dispatcher::{Action, BringUp, DispatcherState, Outcome};

#[test]
fn dispatchers_start_by_asking_for_their_priority() {
    let up = BringUp::new(vec![1, 2, 3]);
    assert_eq!(up.len(), 3);
    for (i, priority) in [1u8, 2, 3].into_iter().enumerate() {
        assert_eq!(up.state(i), DispatcherState::Starting);
        assert_eq!(up.action(i), Action::SetPriority { priority });
    }
    assert!(!up.barrier_open());
}

#[test]
fn dispatcher_walks_through_its_states() {
    let mut up = BringUp::new(vec![4]);
    assert_eq!(up.action(0), Action::SetPriority { priority: 4 });
    up.advance(0, Outcome::Done);
    assert_eq!(up.state(0), DispatcherState::PrioritySet);
    assert_eq!(up.action(0), Action::ArriveAtBarrier);
    up.advance(0, Outcome::Done);
    assert_eq!(up.state(0), DispatcherState::AwaitingBarrier);
    assert_eq!(up.action(0), Action::AwaitBarrier);
    assert!(up.barrier_open());
    up.advance(0, Outcome::Done);
    assert_eq!(up.state(0), DispatcherState::Dispatching);
    assert_eq!(up.action(0), Action::Dispatch);
    up.advance(0, Outcome::Done);
    assert_eq!(up.state(0), DispatcherState::Dispatching);
    assert_eq!(up.action(0), Action::Dispatch);
}

#[test]
fn nobody_dispatches_before_everybody_has_arrived() {
    let mut up = BringUp::new(vec![1, 2, 3]);
    up.advance(0, Outcome::Done);
    up.advance(0, Outcome::Done);
    up.advance(0, Outcome::Done);
    assert_eq!(up.state(0), DispatcherState::AwaitingBarrier);
    up.advance(1, Outcome::Done);
    up.advance(1, Outcome::Done);
    up.advance(1, Outcome::Done);
    up.advance(0, Outcome::Done);
    assert_eq!(up.state(0), DispatcherState::AwaitingBarrier);
    assert_eq!(up.state(1), DispatcherState::AwaitingBarrier);
    assert!(!up.barrier_open());
    up.advance(2, Outcome::Done);
    assert_eq!(up.state(2), DispatcherState::PrioritySet);
    up.advance(0, Outcome::Done);
    assert_eq!(up.state(0), DispatcherState::AwaitingBarrier);
    up.advance(2, Outcome::Done);
    assert!(up.barrier_open());
    up.advance(1, Outcome::Done);
    assert_eq!(up.state(1), DispatcherState::Dispatching);
    up.advance(0, Outcome::Done);
    up.advance(2, Outcome::Done);
    assert_eq!(up.state(0), DispatcherState::Dispatching);
    assert_eq!(up.state(2), DispatcherState::Dispatching);
}

#[test]
fn a_refused_priority_ends_the_program() {
    let mut up = BringUp::new(vec![1, 2]);
    up.advance(1, Outcome::Failed);
    assert_eq!(up.state(1), DispatcherState::Starting);
    assert_eq!(up.action(0), Action::Abort);
    assert_eq!(up.action(1), Action::Abort);
    up.advance(0, Outcome::Done);
    assert_eq!(up.state(0), DispatcherState::Starting);
}

#[test]
fn a_failed_task_ends_the_program() {
    let mut up = BringUp::new(vec![1]);
    up.advance(0, Outcome::Done);
    up.advance(0, Outcome::Done);
    up.advance(0, Outcome::Done);
    assert_eq!(up.action(0), Action::Dispatch);
    up.advance(0, Outcome::Failed);
    assert_eq!(up.action(0), Action::Abort);
}

#[test]
fn bring_up_without_dispatchers_has_an_open_barrier() {
    let up = BringUp::new(vec![]);
    assert_eq!(up.len(), 0);
    assert!(up.barrier_open());
}
