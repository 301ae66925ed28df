use linux_rtic::slab::{Slab, SlabHandle, SlabReceiver, SlabSender};
use linux_rtic::time::Instant;
use linux_rtic::tq::{NotReady, TimerQueue};

fn at(tv_sec: i64, tv_nsec: i64) -> Instant {
    Instant::from_timespec(tv_sec, tv_nsec).unwrap()
}

struct Inputs {
    slab: Slab<u32, 8>,
    tx: SlabSender<u32, 8>,
    rx: SlabReceiver<u32, 8>,
}

fn inputs() -> Inputs {
    let slab = Slab::new();
    let (tx, rx) = slab.split(77);
    Inputs { slab, tx, rx }
}

fn handle(inputs: &mut Inputs, item: u32) -> SlabHandle {
    inputs.tx.insert(&mut inputs.slab, item).unwrap()
}

fn input_of(inputs: &mut Inputs, nr: NotReady) -> u32 {
    inputs.rx.remove(&mut inputs.slab, nr.handle)
}

#[test]
fn new_timer_queue_is_empty() {
    let mut tq: TimerQueue<4> = TimerQueue::new();
    assert_eq!(tq.len(), 0);
    assert!(tq.dequeue(at(i64::MAX, 0)).is_none());
}

#[test]
fn dequeue_returns_an_entry_that_is_due() {
    let mut i = inputs();
    let mut tq: TimerQueue<4> = TimerQueue::new();
    let h = handle(&mut i, 42);
    assert!(tq.enqueue(NotReady { handle: h, instant: at(10, 5), task: 3 }).is_ok());
    assert_eq!(tq.len(), 1);
    let nr = tq.dequeue(at(10, 5)).unwrap();
    assert_eq!(nr.task, 3);
    assert_eq!(nr.instant, at(10, 5));
    assert_eq!(input_of(&mut i, nr), 42);
    assert_eq!(tq.len(), 0);
}

#[test]
fn dequeue_leaves_an_entry_that_is_not_due() {
    let mut i = inputs();
    let mut tq: TimerQueue<4> = TimerQueue::new();
    let h = handle(&mut i, 42);
    assert!(tq.enqueue(NotReady { handle: h, instant: at(10, 5), task: 3 }).is_ok());
    assert!(tq.dequeue(at(10, 4)).is_none());
    assert!(tq.dequeue(at(9, 999_999_999)).is_none());
    assert_eq!(tq.len(), 1);
    assert!(tq.dequeue(at(10, 6)).is_some());
}

#[test]
fn entries_fire_in_deadline_order_even_if_enqueued_in_reverse() {
    let mut i = inputs();
    let mut tq: TimerQueue<8> = TimerQueue::new();
    for (item, sec) in [(5u32, 50i64), (4, 40), (3, 30), (2, 20), (1, 10)] {
        let h = handle(&mut i, item);
        assert!(tq.enqueue(NotReady { handle: h, instant: at(sec, 0), task: item as usize }).is_ok());
    }
    let now = at(100, 0);
    for item in 1..=5u32 {
        let nr = tq.dequeue(now).unwrap();
        assert_eq!(nr.task, item as usize);
        assert_eq!(nr.instant, at(item as i64 * 10, 0));
        assert_eq!(input_of(&mut i, nr), item);
    }
    assert!(tq.dequeue(now).is_none());
}

#[test]
fn nanoseconds_decide_between_deadlines_in_the_same_second() {
    let mut i = inputs();
    let mut tq: TimerQueue<8> = TimerQueue::new();
    let a = handle(&mut i, 1);
    let b = handle(&mut i, 2);
    assert!(tq.enqueue(NotReady { handle: a, instant: at(7, 900), task: 1 }).is_ok());
    assert!(tq.enqueue(NotReady { handle: b, instant: at(7, 100), task: 2 }).is_ok());
    assert_eq!(tq.dequeue(at(7, 500)).unwrap().task, 2);
    assert!(tq.dequeue(at(7, 500)).is_none());
    assert_eq!(tq.dequeue(at(7, 900)).unwrap().task, 1);
}

#[test]
fn enqueue_asks_to_rearm_for_the_first_entry() {
    let mut i = inputs();
    let mut tq: TimerQueue<4> = TimerQueue::new();
    let h = handle(&mut i, 1);
    assert_eq!(tq.enqueue(NotReady { handle: h, instant: at(10, 0), task: 0 }).unwrap(), true);
}

#[test]
fn enqueue_asks_to_rearm_for_an_earlier_deadline_only() {
    let mut i = inputs();
    let mut tq: TimerQueue<8> = TimerQueue::new();
    let a = handle(&mut i, 1);
    let b = handle(&mut i, 2);
    let c = handle(&mut i, 3);
    let d = handle(&mut i, 4);
    assert_eq!(tq.enqueue(NotReady { handle: a, instant: at(10, 0), task: 0 }).unwrap(), true);
    assert_eq!(tq.enqueue(NotReady { handle: b, instant: at(20, 0), task: 0 }).unwrap(), false);
    assert_eq!(tq.enqueue(NotReady { handle: c, instant: at(10, 0), task: 0 }).unwrap(), false);
    assert_eq!(tq.enqueue(NotReady { handle: d, instant: at(9, 999_999_999), task: 0 }).unwrap(), true);
}

#[test]
fn enqueue_into_a_full_timer_queue_returns_the_entry() {
    let mut i = inputs();
    let mut tq: TimerQueue<2> = TimerQueue::new();
    let a = handle(&mut i, 1);
    let b = handle(&mut i, 2);
    let c = handle(&mut i, 3);
    assert!(tq.enqueue(NotReady { handle: a, instant: at(1, 0), task: 1 }).is_ok());
    assert!(tq.enqueue(NotReady { handle: b, instant: at(2, 0), task: 2 }).is_ok());
    let back = tq.enqueue(NotReady { handle: c, instant: at(0, 5), task: 9 }).unwrap_err();
    assert_eq!(back.task, 9);
    assert_eq!(back.instant, at(0, 5));
    assert_eq!(input_of(&mut i, back), 3);
    assert_eq!(tq.len(), 2);
    assert_eq!(tq.dequeue(at(5, 0)).unwrap().task, 1);
}

#[test]
fn timer_queue_without_room_takes_nothing() {
    let mut i = inputs();
    let mut tq: TimerQueue<0> = TimerQueue::new();
    let a = handle(&mut i, 1);
    assert!(tq.enqueue(NotReady { handle: a, instant: at(1, 0), task: 1 }).is_err());
    assert_eq!(tq.len(), 0);
}

#[test]
fn large_timer_queue_takes_as_many_entries_as_it_has_room_for() {
    let mut slab: Slab<u32, 5001> = Slab::new();
    let (tx, mut rx) = slab.split(1);
    let mut tq: TimerQueue<5000> = TimerQueue::new();
    for n in 0..5000u32 {
        let h = tx.insert(&mut slab, n).unwrap();
        let rearm = tq
            .enqueue(NotReady { handle: h, instant: at(10_000 - n as i64, 0), task: 0 })
            .unwrap();
        assert!(rearm);
    }
    assert_eq!(tq.len(), 5000);
    assert!(tq.is_full());
    let h = tx.insert(&mut slab, 5000).unwrap();
    let back = tq.enqueue(NotReady { handle: h, instant: at(0, 0), task: 5 }).unwrap_err();
    assert_eq!(back.task, 5);
    assert_eq!(back.instant, at(0, 0));
    assert_eq!(rx.remove(&mut slab, back.handle), 5000);
    assert_eq!(tq.len(), 5000);
    let first = tq.dequeue(at(20_000, 0)).unwrap();
    assert_eq!(first.instant, at(5_001, 0));
    assert_eq!(rx.remove(&mut slab, first.handle), 4999);
    assert_eq!(tq.len(), 4999);
}

#[test]
fn timer_queue_takes_exactly_its_capacity() {
    let mut i = inputs();
    let mut tq: TimerQueue<3> = TimerQueue::new();
    for n in 0..3u32 {
        assert!(!tq.is_full());
        let h = handle(&mut i, n);
        assert!(tq.enqueue(NotReady { handle: h, instant: at(5, 0), task: 0 }).is_ok());
    }
    assert!(tq.is_full());
    let h = handle(&mut i, 3);
    assert!(tq.enqueue(NotReady { handle: h, instant: at(1, 0), task: 0 }).is_err());
    assert!(tq.dequeue(at(5, 0)).is_some());
    assert!(!tq.is_full());
    let h = handle(&mut i, 4);
    assert_eq!(tq.enqueue(NotReady { handle: h, instant: at(1, 0), task: 0 }).unwrap(), true);
}

#[test]
fn entries_with_the_same_deadline_all_come_out() {
    let mut i = inputs();
    let mut tq: TimerQueue<8> = TimerQueue::new();
    for item in [3u32, 1, 2] {
        let h = handle(&mut i, item);
        assert!(tq.enqueue(NotReady { handle: h, instant: at(5, 0), task: item as usize }).is_ok());
    }
    let mut tasks = Vec::new();
    while let Some(nr) = tq.dequeue(at(5, 0)) {
        assert_eq!(input_of(&mut i, NotReady { handle: nr.handle, instant: nr.instant, task: nr.task }) as usize, nr.task);
        tasks.push(nr.task);
    }
    assert_eq!(tasks, vec![1, 2, 3]);
}

#[test]
fn an_entry_for_a_past_instant_fires_at_once() {
    let mut i = inputs();
    let mut tq: TimerQueue<4> = TimerQueue::new();
    let h = handle(&mut i, 8);
    assert!(tq.enqueue(NotReady { handle: h, instant: at(1, 0), task: 0 }).is_ok());
    let nr = tq.dequeue(at(1_000, 0)).unwrap();
    assert_eq!(input_of(&mut i, nr), 8);
}

#[test]
fn drain_ready_takes_what_is_due_in_deadline_order() {
    let mut i = inputs();
    let mut tq: TimerQueue<8> = TimerQueue::new();
    for (item, sec) in [(4u32, 40i64), (1, 10), (3, 30), (2, 20), (5, 50)] {
        let h = handle(&mut i, item);
        assert!(tq.enqueue(NotReady { handle: h, instant: at(sec, 0), task: item as usize }).is_ok());
    }
    let fired = tq.drain_ready(at(30, 0));
    let tasks: Vec<usize> = fired.iter().map(|nr| nr.task).collect();
    assert_eq!(tasks, vec![1, 2, 3]);
    assert_eq!(tq.len(), 2);
    let mut item = 1u32;
    for nr in fired {
        assert_eq!(input_of(&mut i, nr), item);
        item += 1;
    }
    assert!(tq.drain_ready(at(39, 999_999_999)).is_empty());
    let tasks: Vec<usize> = tq.drain_ready(at(60, 0)).iter().map(|nr| nr.task).collect();
    assert_eq!(tasks, vec![4, 5]);
    assert_eq!(tq.len(), 0);
}

#[test]
fn drain_ready_on_an_empty_queue_gives_nothing() {
    let mut tq: TimerQueue<8> = TimerQueue::new();
    assert!(tq.drain_ready(at(60, 0)).is_empty());
}

#[test]
fn next_deadline_of_an_empty_queue_is_the_end_of_time() {
    let tq: TimerQueue<4> = TimerQueue::new();
    let t = tq.next_deadline();
    assert_eq!(t.tv_sec(), i64::MAX);
    assert_eq!(t.tv_nsec(), 0);
}

#[test]
fn next_deadline_is_the_earliest_deadline() {
    let mut i = inputs();
    let mut tq: TimerQueue<4> = TimerQueue::new();
    let a = handle(&mut i, 1);
    let b = handle(&mut i, 2);
    assert!(tq.enqueue(NotReady { handle: a, instant: at(9, 1), task: 0 }).is_ok());
    assert_eq!(tq.next_deadline(), at(9, 1));
    assert!(tq.enqueue(NotReady { handle: b, instant: at(3, 7), task: 0 }).is_ok());
    assert_eq!(tq.next_deadline(), at(3, 7));
    assert!(tq.dequeue(at(5, 0)).is_some());
    assert_eq!(tq.next_deadline(), at(9, 1));
    assert_eq!(tq.len(), 1);
}

#[test]
fn entries_before_the_origin_keep_their_order() {
    let mut i = inputs();
    let mut tq: TimerQueue<4> = TimerQueue::new();
    let a = handle(&mut i, 1);
    let b = handle(&mut i, 2);
    assert!(tq.enqueue(NotReady { handle: a, instant: at(-1, 999_999_999), task: 1 }).is_ok());
    assert!(tq.enqueue(NotReady { handle: b, instant: at(-2, 0), task: 2 }).is_ok());
    assert_eq!(tq.dequeue(at(0, 0)).unwrap().task, 2);
    assert_eq!(tq.dequeue(at(0, 0)).unwrap().task, 1);
}
