use async_runtime::compare::{cpu_time_parts, longest, pending_deadlines, spin_timer_ready};
use async_runtime::listener::{ListenerPoll, TcpListenerFuture};
use async_runtime::net::{echo_step, Accept, AcceptPoll, EchoStep, IoAttempt, ReadFut, ReadPoll};
use async_runtime::reactor::Change;
use async_runtime::stream::{StreamPoll, TcpStreamFuture};
use async_runtime::task_list::TaskList;

#[test]
fn accept_arms_once_and_survives_errors() {
    let mut a = Accept::new(6);
    assert_eq!(a.poll(IoAttempt::WouldBlock), AcceptPoll::Pending { arm: Some(Change::read(6)), failed: false });
    assert_eq!(a.poll(IoAttempt::WouldBlock), AcceptPoll::Pending { arm: None, failed: false });
    assert_eq!(a.poll(IoAttempt::Failed), AcceptPoll::Pending { arm: None, failed: true });
    assert_eq!(a.poll(IoAttempt::Done(9)), AcceptPoll::Ready);
}

#[test]
fn accept_error_first_still_arms() {
    let mut a = Accept::new(6);
    assert_eq!(a.poll(IoAttempt::Failed), AcceptPoll::Pending { arm: Some(Change::read(6)), failed: true });
}

#[test]
fn read_future_outcomes() {
    let mut r = ReadFut::new(8);
    assert_eq!(r.poll(IoAttempt::WouldBlock), ReadPoll::Pending(Some(Change::read(8))));
    assert_eq!(r.poll(IoAttempt::WouldBlock), ReadPoll::Pending(None));
    assert_eq!(r.poll(IoAttempt::Done(5)), ReadPoll::Done(5));
    let mut f = ReadFut::new(8);
    assert_eq!(f.poll(IoAttempt::Failed), ReadPoll::Failed);
    let mut z = ReadFut::new(8);
    assert_eq!(z.poll(IoAttempt::Done(0)), ReadPoll::Done(0));
}

#[test]
fn echo_writes_back_what_it_read() {
    assert_eq!(echo_step(Some(0)), EchoStep::Closed);
    assert_eq!(echo_step(Some(5)), EchoStep::Echo(5));
    assert_eq!(echo_step(Some(512)), EchoStep::Echo(512));
    assert_eq!(echo_step(None), EchoStep::Stop);
}

#[test]
fn listener_task_requeues_after_each_connection() {
    let mut ready = Vec::new();
    let mut l = TcpListenerFuture::new(3);
    assert_eq!(l.poll(IoAttempt::WouldBlock, &mut ready), ListenerPoll::Wait(Some(Change::read(3))));
    assert!(l.registered);
    assert_eq!(l.poll(IoAttempt::WouldBlock, &mut ready), ListenerPoll::Wait(None));
    assert_eq!(l.poll(IoAttempt::Done(4), &mut ready), ListenerPoll::Accepted);
    assert!(!l.registered);
    assert_eq!(ready, vec![3]);
    assert_eq!(l.poll(IoAttempt::Failed, &mut ready), ListenerPoll::Failed);
    assert_eq!(ready, vec![3]);
}

#[test]
fn stream_task_echoes_and_closes() {
    let mut ready = vec![1];
    let mut s = TcpStreamFuture::new(4);
    assert_eq!(s.poll(IoAttempt::WouldBlock, &mut ready), StreamPoll::Wait(Some(Change::read(4))));
    assert_eq!(s.poll(IoAttempt::Done(5), &mut ready), StreamPoll::Echo(5));
    assert!(!s.registered);
    assert_eq!(ready, vec![1, 4]);
    assert_eq!(s.poll(IoAttempt::WouldBlock, &mut ready), StreamPoll::Wait(Some(Change::read(4))));
    assert_eq!(s.poll(IoAttempt::Done(0), &mut ready), StreamPoll::Closed);
    assert_eq!(s.poll(IoAttempt::Failed, &mut ready), StreamPoll::Failed);
    assert_eq!(ready, vec![1, 4]);
}

#[test]
fn task_list_adds_ready_tasks() {
    let mut l: TaskList<&'static str> = TaskList::new();
    l.add(101, "task");
    l.add(1001, "timer");
    assert_eq!(l.ready_tasks, vec![101, 1001]);
    assert_eq!(l.pending_tasks.get(&101), Some(&"task"));
    assert_eq!(l.pending_tasks.len(), 2);
}

#[test]
fn workload_longest_timer() {
    assert_eq!(longest(&[1, 2, 3]), 3);
    assert_eq!(longest(&[4, 2, 3]), 4);
    assert_eq!(longest(&[]), 0);
}

#[test]
fn spin_timer_checks_the_clock() {
    assert!(!spin_timer_ready(10, 9));
    assert!(spin_timer_ready(10, 10));
    assert!(spin_timer_ready(10, 11));
}

#[test]
fn cpu_time_adds_user_and_system() {
    assert_eq!(cpu_time_parts(1, 500_000, 2, 700_000), (3, 1_200_000));
    assert_eq!(cpu_time_parts(0, 0, 0, 0), (0, 0));
}

#[test]
fn busy_poll_pass_drops_due_timers() {
    assert_eq!(pending_deadlines(&vec![5, 10, 3, 20], 10), vec![20]);
    assert_eq!(pending_deadlines(&vec![5, 10, 3, 20], 4), vec![5, 10, 20]);
    assert_eq!(pending_deadlines(&vec![], 4), Vec::<u128>::new());
}
