use async_runtime::reactor::{fired_idents, Change, Filter, Reactor};

#[test]
fn timer_change_is_a_oneshot_timer() {
    let c = Change::timer(1_000_000, 1500);
    assert_eq!(
        c,
        Change { ident: 1_000_000, filter: Filter::Timer, oneshot: true, clear: false, data: 1500 }
    );
}

#[test]
fn timer_change_truncates_the_delay_to_a_word() {
    let c = Change::timer(7, (1u128 << 64) + 5);
    assert_eq!(c.data, 5);
}

#[test]
fn read_change_is_lasting_and_cleared() {
    let c = Change::read(9);
    assert_eq!(c, Change { ident: 9, filter: Filter::Read, oneshot: false, clear: true, data: 0 });
}

#[test]
fn fired_idents_takes_the_reported_prefix() {
    let buf = [3usize, 4, 5, 0];
    assert_eq!(fired_idents(&buf, 2), Some(vec![3, 4]));
    assert_eq!(fired_idents(&buf, 0), Some(vec![]));
    assert_eq!(fired_idents(&buf, 4), Some(vec![3, 4, 5, 0]));
    assert_eq!(fired_idents(&buf, -1), None);
}

#[test]
fn new_reactor_keeps_its_queue() {
    let r: Reactor<u32> = Reactor::new(42);
    assert_eq!(r.kq, 42);
}

#[test]
fn failed_submission_records_nothing() {
    let mut r: Reactor<u32> = Reactor::new(3);
    assert!(!r.register(Change::timer(1_000_000, 10), 7, -1));
    assert_eq!(r.fired(&vec![1_000_000]), Vec::<u32>::new());
}

#[test]
fn oneshot_timer_wakes_once() {
    let mut r: Reactor<u32> = Reactor::new(3);
    assert!(r.register(Change::timer(1_000_000, 10), 7, 0));
    assert_eq!(r.fired(&vec![1_000_000]), vec![7]);
    assert_eq!(r.fired(&vec![1_000_000]), Vec::<u32>::new());
}

#[test]
fn read_interest_wakes_on_every_event() {
    let mut r: Reactor<u32> = Reactor::new(3);
    assert!(r.register(Change::read(5), 11, 0));
    assert_eq!(r.fired(&vec![5]), vec![11]);
    assert_eq!(r.fired(&vec![5, 5]), vec![11, 11]);
}

#[test]
fn events_wake_exactly_their_registrations() {
    let mut r: Reactor<u32> = Reactor::new(3);
    assert!(r.register(Change::read(5), 1, 0));
    assert!(r.register(Change::timer(1_000_000, 2), 2, 0));
    assert!(r.register(Change::timer(1_000_001, 2), 3, 0));
    assert_eq!(r.fired(&vec![1_000_001, 8, 5]), vec![3, 1]);
    assert_eq!(r.fired(&vec![1_000_000, 1_000_001]), vec![2]);
}

#[test]
fn later_registration_replaces_the_waker() {
    let mut r: Reactor<u32> = Reactor::new(3);
    assert!(r.register(Change::read(5), 1, 0));
    assert!(r.register(Change::read(5), 2, 0));
    assert_eq!(r.fired(&vec![5]), vec![2]);
}
