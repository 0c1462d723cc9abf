use async_runtime::reactor::{Change, Filter};
use async_runtime::timer::{TimerFuture, TimerIdents, TimerPoll, FIRST_TIMER_IDENT};

#[test]
fn timer_idents_start_above_descriptors_and_increase() {
    let mut ids = TimerIdents::new();
    assert_eq!(ids.next_timer_ident(), 1_000_000);
    assert_eq!(ids.next_timer_ident(), 1_000_001);
    assert_eq!(ids.next_timer_ident(), 1_000_002);
    assert_eq!(FIRST_TIMER_IDENT, 1_000_000);
}

#[test]
fn timer_arms_once_then_completes_at_its_deadline() {
    let mut ids = TimerIdents::new();
    let mut t = TimerFuture::new(0, 2_000_000_000, &mut ids);
    assert_eq!(
        t.poll(1),
        TimerPoll::Arm(Change {
            ident: 1_000_000,
            filter: Filter::Timer,
            oneshot: true,
            clear: false,
            data: 1999,
        })
    );
    assert_eq!(t.poll(500_000_000), TimerPoll::Wait);
    assert_eq!(t.poll(1_999_999_999), TimerPoll::Wait);
    assert_eq!(t.poll(2_000_000_000), TimerPoll::Ready);
    assert_eq!(t.poll(3_000_000_000), TimerPoll::Ready);
}

#[test]
fn expired_timer_is_ready_without_arming() {
    let mut ids = TimerIdents::new();
    let mut t = TimerFuture::new(100, 0, &mut ids);
    assert_eq!(t.poll(100), TimerPoll::Ready);
}

#[test]
fn sub_millisecond_wait_arms_a_zero_delay() {
    let mut ids = TimerIdents::new();
    let _first = TimerFuture::new(0, 5, &mut ids);
    let mut t = TimerFuture::new(1_000, 999_999, &mut ids);
    assert_eq!(
        t.poll(1_000),
        TimerPoll::Arm(Change { ident: 1_000_001, filter: Filter::Timer, oneshot: true, clear: false, data: 0 })
    );
}
