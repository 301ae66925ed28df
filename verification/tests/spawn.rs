use linux_rtic::rq::RunQueue;
use linux_rtic::slab::{Slab, SlabHandle};
use linux_rtic::spawn::{spawn, spawn_after, spawn_at};
use linux_rtic::time::{Duration, Instant};
use linux_rtic::tq::TimerQueue;

fn at(tv_sec: i64, tv_nsec: i64) -> Instant {
    Instant::from_timespec(tv_sec, tv_nsec).unwrap()
}

#[test]
fn spawned_input_reaches_the_dispatcher() {
    let mut slab: Slab<(u32, u32), 2> = Slab::new();
    let (tx, mut rx) = slab.split(1);
    let mut rq: RunQueue<(usize, SlabHandle), 2> = RunQueue::new();
    assert_eq!(spawn(&tx, &mut slab, &mut rq, 7, (1, 2)), Ok(()));
    assert_eq!(rq.len(), 1);
    let (task, handle) = rq.try_recv().unwrap();
    assert_eq!(task, 7);
    assert_eq!(rx.remove(&mut slab, handle), (1, 2));
    assert_eq!(slab.len(), 0);
}

#[test]
fn two_spawns_dispatch_in_call_order() {
    let mut slab: Slab<&'static str, 4> = Slab::new();
    let (tx, mut rx) = slab.split(1);
    let mut rq: RunQueue<(usize, SlabHandle), 4> = RunQueue::new();
    assert_eq!(spawn(&tx, &mut slab, &mut rq, 0, "first"), Ok(()));
    assert_eq!(spawn(&tx, &mut slab, &mut rq, 0, "second"), Ok(()));
    let (_, handle) = rq.try_recv().unwrap();
    assert_eq!(rx.remove(&mut slab, handle), "first");
    let (_, handle) = rq.try_recv().unwrap();
    assert_eq!(rx.remove(&mut slab, handle), "second");
    assert!(rq.try_recv().is_none());
}

#[test]
fn fifth_spawn_of_a_task_with_capacity_four_returns_its_input() {
    let mut slab: Slab<u32, 4> = Slab::new();
    let (tx, mut rx) = slab.split(1);
    let mut rq: RunQueue<(usize, SlabHandle), 4> = RunQueue::new();
    for x in 1..=4u32 {
        assert_eq!(spawn(&tx, &mut slab, &mut rq, 0, x), Ok(()));
    }
    assert_eq!(spawn(&tx, &mut slab, &mut rq, 0, 5), Err(5));
    assert_eq!(rq.len(), 4);
    for x in 1..=4u32 {
        let (task, handle) = rq.try_recv().unwrap();
        assert_eq!(task, 0);
        assert_eq!(rx.remove(&mut slab, handle), x);
    }
    assert!(rq.try_recv().is_none());
    assert_eq!(spawn(&tx, &mut slab, &mut rq, 0, 5), Ok(()));
}

#[test]
fn tasks_of_one_level_share_the_run_queue() {
    let mut foo: Slab<u32, 2> = Slab::new();
    let mut bar: Slab<&'static str, 2> = Slab::new();
    let (foo_tx, mut foo_rx) = foo.split(1);
    let (bar_tx, mut bar_rx) = bar.split(2);
    let mut rq: RunQueue<(usize, SlabHandle), 4> = RunQueue::new();
    assert_eq!(spawn(&foo_tx, &mut foo, &mut rq, 0, 10), Ok(()));
    assert_eq!(spawn(&bar_tx, &mut bar, &mut rq, 1, "a"), Ok(()));
    assert_eq!(spawn(&foo_tx, &mut foo, &mut rq, 0, 20), Ok(()));
    let mut log = Vec::new();
    while let Some((task, handle)) = rq.try_recv() {
        if task == 0 {
            log.push(format!("foo {}", foo_rx.remove(&mut foo, handle)));
        } else {
            log.push(format!("bar {}", bar_rx.remove(&mut bar, handle)));
        }
    }
    assert_eq!(log, vec!["foo 10", "bar a", "foo 20"]);
}

#[test]
fn ping_pong_between_two_tasks_alternates() {
    let mut ping: Slab<u32, 1> = Slab::new();
    let mut pong: Slab<u32, 1> = Slab::new();
    let (ping_tx, mut ping_rx) = ping.split(1);
    let (pong_tx, mut pong_rx) = pong.split(2);
    let mut rq: RunQueue<(usize, SlabHandle), 2> = RunQueue::new();
    assert_eq!(spawn(&ping_tx, &mut ping, &mut rq, 0, 0), Ok(()));
    let mut expected = 0usize;
    for count in 0..10_000u32 {
        let (task, handle) = rq.try_recv().unwrap();
        assert_eq!(task, expected);
        if task == 0 {
            assert_eq!(ping_rx.remove(&mut ping, handle), count);
            assert_eq!(spawn(&pong_tx, &mut pong, &mut rq, 1, count + 1), Ok(()));
        } else {
            assert_eq!(pong_rx.remove(&mut pong, handle), count);
            assert_eq!(spawn(&ping_tx, &mut ping, &mut rq, 0, count + 1), Ok(()));
        }
        expected = 1 - expected;
    }
}

#[test]
fn spawn_at_puts_the_task_into_the_timer_queue() {
    let mut slab: Slab<u32, 2> = Slab::new();
    let (tx, mut rx) = slab.split(1);
    let mut tq: TimerQueue<2> = TimerQueue::new();
    assert_eq!(spawn_at(&tx, &mut slab, &mut tq, 3, at(10, 0), 99), Ok(true));
    assert!(tq.dequeue(at(9, 999_999_999)).is_none());
    let nr = tq.dequeue(at(10, 0)).unwrap();
    assert_eq!(nr.task, 3);
    assert_eq!(nr.instant, at(10, 0));
    assert_eq!(rx.remove(&mut slab, nr.handle), 99);
}

#[test]
fn spawn_at_reports_whether_the_deadline_is_the_earliest() {
    let mut slab: Slab<u32, 4> = Slab::new();
    let (tx, _rx) = slab.split(1);
    let mut tq: TimerQueue<4> = TimerQueue::new();
    assert_eq!(spawn_at(&tx, &mut slab, &mut tq, 0, at(10, 0), 1), Ok(true));
    assert_eq!(spawn_at(&tx, &mut slab, &mut tq, 0, at(11, 0), 2), Ok(false));
    assert_eq!(spawn_at(&tx, &mut slab, &mut tq, 0, at(5, 0), 3), Ok(true));
    assert_eq!(spawn_at(&tx, &mut slab, &mut tq, 0, at(5, 0), 4), Ok(false));
    assert_eq!(spawn_at(&tx, &mut slab, &mut tq, 0, at(1, 0), 5), Err(5));
    assert_eq!(tq.len(), 4);
}

#[test]
fn spawn_at_in_reverse_order_fires_in_deadline_order() {
    let mut slab: Slab<u32, 4> = Slab::new();
    let (tx, mut rx) = slab.split(1);
    let mut tq: TimerQueue<4> = TimerQueue::new();
    assert!(spawn_at(&tx, &mut slab, &mut tq, 0, at(20, 0), 2).is_ok());
    assert!(spawn_at(&tx, &mut slab, &mut tq, 0, at(10, 0), 1).is_ok());
    let first = tq.dequeue(at(30, 0)).unwrap();
    assert_eq!(rx.remove(&mut slab, first.handle), 1);
    let second = tq.dequeue(at(30, 0)).unwrap();
    assert_eq!(rx.remove(&mut slab, second.handle), 2);
}

#[test]
fn spawn_after_starts_the_task_when_the_duration_has_passed() {
    let mut slab: Slab<u32, 2> = Slab::new();
    let (tx, mut rx) = slab.split(1);
    let mut tq: TimerQueue<2> = TimerQueue::new();
    let now = at(100, 500_000_000);
    assert_eq!(
        spawn_after(&tx, &mut slab, &mut tq, 1, now, Duration::new(1, 500_000_000), 8),
        Ok(true)
    );
    assert_eq!(tq.next_deadline(), at(102, 0));
    assert!(tq.dequeue(at(101, 999_999_999)).is_none());
    let nr = tq.dequeue(at(102, 0)).unwrap();
    assert_eq!(nr.instant, at(102, 0));
    assert_eq!(rx.remove(&mut slab, nr.handle), 8);
}

#[test]
fn scheduled_task_reschedules_itself_every_second() {
    let mut slab: Slab<u32, 1> = Slab::new();
    let (tx, mut rx) = slab.split(1);
    let mut tq: TimerQueue<1> = TimerQueue::new();
    let mut rq: RunQueue<(usize, SlabHandle), 1> = RunQueue::new();
    let second = Duration::new(1, 0);
    let start = at(1_000, 0);
    assert_eq!(spawn_after(&tx, &mut slab, &mut tq, 0, start, second, 0), Ok(true));
    let mut runs = Vec::new();
    let mut now = start;
    for _tick in 0..35 {
        for nr in tq.drain_ready(now) {
            assert!(rq.send((nr.task, nr.handle)).is_ok());
        }
        while let Some((_task, handle)) = rq.try_recv() {
            let count = rx.remove(&mut slab, handle);
            runs.push((now.tv_sec(), now.tv_nsec(), count));
            assert_eq!(spawn_after(&tx, &mut slab, &mut tq, 0, now, second, count + 1), Ok(true));
        }
        now = now + Duration::new(0, 100_000_000);
    }
    assert_eq!(runs, vec![(1_001, 0, 0), (1_002, 0, 1), (1_003, 0, 2)]);
}
