use async_runtime::executor::{yield_now, Action, Executor, YieldPoll};
use async_runtime::reactor::Reactor;
use async_runtime::timer::{TimerFuture, TimerIdents, TimerPoll};

fn poll(id: usize, name: &'static str) -> Action<&'static str> {
    Action::Poll(id, name)
}

#[test]
fn new_executor_finishes_at_once() {
    let mut e: Executor<&'static str> = Executor::new();
    assert_eq!(e.next_action(), Action::Finish);
    let mut d: Executor<&'static str> = Executor::default();
    assert_eq!(d.next_action(), Action::Finish);
}

#[test]
fn spawned_tasks_get_consecutive_ids_and_run_in_order() {
    let mut e = Executor::new();
    e.spawn("a");
    e.spawn("b");
    e.spawn("c");
    assert_eq!(e.next_action(), poll(0, "a"));
    e.poll_done(0, "a", true);
    assert_eq!(e.next_action(), poll(1, "b"));
    e.poll_done(1, "b", true);
    assert_eq!(e.next_action(), poll(2, "c"));
    e.poll_done(2, "c", true);
    assert_eq!(e.next_action(), Action::Finish);
}

#[test]
fn pending_tasks_make_the_executor_block() {
    let mut e = Executor::new();
    e.spawn("timer");
    assert_eq!(e.next_action(), poll(0, "timer"));
    e.poll_done(0, "timer", false);
    assert_eq!(e.next_action(), Action::Block);
    // Blocking again without a wake-up: still nothing to do.
    assert_eq!(e.next_action(), Action::Block);
    e.wake(0);
    assert_eq!(e.next_action(), poll(0, "timer"));
    e.poll_done(0, "timer", true);
    assert_eq!(e.next_action(), Action::Finish);
}

#[test]
fn finished_task_is_never_polled_again() {
    let mut e = Executor::new();
    e.spawn("a");
    e.spawn("b");
    assert_eq!(e.next_action(), poll(0, "a"));
    e.poll_done(0, "a", true);
    // A stale waker fires for the finished task: its id is passed over.
    e.wake(0);
    assert_eq!(e.next_action(), poll(1, "b"));
    e.poll_done(1, "b", false);
    e.wake(0);
    assert_eq!(e.next_action(), Action::Block);
}

#[test]
fn task_woken_during_a_turn_runs_next_turn() {
    let mut e = Executor::new();
    e.spawn("a");
    e.spawn("b");
    assert_eq!(e.next_action(), poll(0, "a"));
    // `a` wakes itself (it yielded) while being polled.
    e.wake(0);
    e.poll_done(0, "a", false);
    assert_eq!(e.next_action(), poll(1, "b"));
    e.poll_done(1, "b", false);
    // No block: `a` is ready again.
    assert_eq!(e.next_action(), poll(0, "a"));
    e.poll_done(0, "a", true);
    assert_eq!(e.next_action(), Action::Block);
}

#[test]
fn children_spawned_during_a_poll_are_adopted_after_it() {
    let mut e = Executor::new();
    e.spawn("listener");
    assert_eq!(e.next_action(), poll(0, "listener"));
    e.queue_spawn("echo 1");
    e.queue_spawn("echo 2");
    e.poll_done(0, "listener", false);
    assert_eq!(e.next_action(), poll(1, "echo 1"));
    e.poll_done(1, "echo 1", true);
    assert_eq!(e.next_action(), poll(2, "echo 2"));
    e.poll_done(2, "echo 2", false);
    assert_eq!(e.next_action(), Action::Block);
}

#[test]
fn child_woken_before_its_parent_finishes_is_queued_after_earlier_wakes() {
    let mut e = Executor::new();
    e.spawn("parent");
    assert_eq!(e.next_action(), poll(0, "parent"));
    e.wake(0);
    e.queue_spawn("child");
    e.poll_done(0, "parent", false);
    assert_eq!(e.next_action(), poll(0, "parent"));
    e.poll_done(0, "parent", true);
    assert_eq!(e.next_action(), poll(1, "child"));
    e.poll_done(1, "child", true);
    assert_eq!(e.next_action(), Action::Finish);
}

#[test]
fn tasks_queued_before_the_run_wait_for_a_live_task() {
    let mut e: Executor<&'static str> = Executor::new();
    e.queue_spawn("orphan");
    // Nothing has been spawned at the top level: the run ends at once.
    assert_eq!(e.next_action(), Action::Finish);
    e.spawn("main");
    assert_eq!(e.next_action(), poll(0, "main"));
    e.poll_done(0, "main", true);
    // `orphan` was adopted after that poll as task 1.
    assert_eq!(e.next_action(), poll(1, "orphan"));
}

#[test]
fn yield_is_pending_once_then_ready() {
    let mut y = yield_now();
    assert_eq!(y.poll(), YieldPoll::Requeue);
    assert_eq!(y.poll(), YieldPoll::Ready);
    assert_eq!(y.poll(), YieldPoll::Ready);
}

#[test]
fn timer_task_sleeps_in_the_reactor_until_its_event() {
    let mut ids = TimerIdents::new();
    let mut exec: Executor<TimerFuture> = Executor::new();
    let mut reactor: Reactor<usize> = Reactor::new(3);
    exec.spawn(TimerFuture::new(0, 2_000_000_000, &mut ids));

    let (id, mut timer) = match exec.next_action() {
        Action::Poll(id, t) => (id, t),
        _ => panic!("the spawned task is polled first"),
    };
    assert_eq!(id, 0);
    let change = match timer.poll(0) {
        TimerPoll::Arm(c) => c,
        _ => panic!("a fresh timer arms"),
    };
    assert_eq!(change.data, 2000);
    assert!(reactor.register(change, id, 0));
    exec.poll_done(id, timer, false);
    assert!(matches!(exec.next_action(), Action::Block));

    // The kernel reports the timer: the reactor names the task, which is woken.
    for task in reactor.fired(&vec![change.ident]) {
        exec.wake(task);
    }
    let (id, mut timer) = match exec.next_action() {
        Action::Poll(id, t) => (id, t),
        _ => panic!("the woken task is polled"),
    };
    assert_eq!(timer.poll(2_000_000_000), TimerPoll::Ready);
    exec.poll_done(id, timer, true);
    assert!(matches!(exec.next_action(), Action::Finish));
}

#[test]
fn self_waking_tasks_finish_without_blocking() {
    // Each task yields twice (waking itself) and finishes on its third poll.
    let mut e = Executor::new();
    e.spawn(3u32);
    e.spawn(3u32);
    let mut polls = [0u32; 2];
    loop {
        match e.next_action() {
            Action::Poll(id, left) => {
                polls[id] += 1;
                if left > 1 {
                    e.wake(id);
                    e.poll_done(id, left - 1, false);
                } else {
                    e.poll_done(id, left, true);
                }
            }
            Action::Block => panic!("a self-waking run never blocks"),
            Action::Finish => break,
        }
    }
    assert_eq!(polls, [3, 3]);
}

#[test]
fn unwoken_task_is_not_polled_again() {
    let mut e = Executor::new();
    e.spawn("parked");
    e.spawn("other");
    assert_eq!(e.next_action(), poll(0, "parked"));
    e.poll_done(0, "parked", false);
    assert_eq!(e.next_action(), poll(1, "other"));
    e.wake(1);
    e.poll_done(1, "other", false);
    // Only `other` was woken: it alone is polled again.
    assert_eq!(e.next_action(), poll(1, "other"));
    e.poll_done(1, "other", true);
    assert_eq!(e.next_action(), Action::Block);
}
