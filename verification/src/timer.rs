use vstd::prelude::*;
use crate::reactor::{Change, timer_change};

verus! {

/// Timer idents are handed out from here upwards, so they never collide with
/// a file descriptor (a small integer) in the reactor's table.
pub const FIRST_TIMER_IDENT: usize = 1_000_000;

/// The source of kernel timer idents: each call hands out a fresh one.
pub struct TimerIdents {
    next: usize,
}

impl View for TimerIdents {
    type V = nat;

    closed spec fn view(&self) -> nat {
        self.next as nat
    }
}

impl TimerIdents {
    #[verifier::type_invariant]
    spec fn above_descriptors(&self) -> bool {
        self.next >= FIRST_TIMER_IDENT
    }

    pub fn new() -> (s: TimerIdents)
        ensures
            s@ == FIRST_TIMER_IDENT,
    {
        TimerIdents { next: FIRST_TIMER_IDENT }
    }

    /// Whether another ident can be handed out.
    pub fn has_next(&self) -> (b: bool)
        ensures
            b == (self@ < usize::MAX),
            self@ >= FIRST_TIMER_IDENT,
    {
        proof { use_type_invariant(self); }
        self.next < usize::MAX
    }

    /// Hands out the next ident.
    pub fn next_timer_ident(&mut self) -> (v: usize)
        requires
            old(self)@ < usize::MAX,
        ensures
            v == old(self)@,
            final(self)@ == old(self)@ + 1,
            v >= FIRST_TIMER_IDENT,
            final(self)@ > FIRST_TIMER_IDENT,
    {
        proof { use_type_invariant(&*self); }
        let v = self.next;
        self.next = v + 1;
        v
    }
}

/// Nanoseconds in a millisecond.
pub const NANOS_PER_MILLI: u128 = 1_000_000;

/// What polling a timer asks for.
#[derive(PartialEq, Eq, Structural, Clone, Copy, Debug)]
pub enum TimerPoll {
    /// The deadline has passed.
    Ready,
    /// Not yet due: submit this one-shot kernel timer with the task's waker,
    /// then park.
    Arm(Change),
    /// Not yet due and already armed: stay parked.
    Wait,
}

/// The plain state of a timer: its deadline (in nanoseconds on the runtime's
/// clock), its kernel ident, and whether its kernel timer is armed.
pub struct TimerState {
    pub deadline: u128,
    pub ident: usize,
    pub registered: bool,
}

/// One poll of a timer at time `now`: ready once the deadline has passed;
/// otherwise the first pending poll arms a kernel timer for the whole
/// milliseconds left, and later ones only wait.
pub open spec fn timer_step(t: TimerState, now: u128) -> (TimerState, TimerPoll) {
    if now >= t.deadline {
        (t, TimerPoll::Ready)
    } else if !t.registered {
        (
            TimerState { registered: true, ..t },
            TimerPoll::Arm(timer_change(t.ident, ((t.deadline - now) / NANOS_PER_MILLI as int) as u128)),
        )
    } else {
        (t, TimerPoll::Wait)
    }
}

/// A future that completes once a deadline has passed, parking its task on a
/// one-shot kernel timer meanwhile.
pub struct TimerFuture {
    deadline: u128,
    ident: usize,
    registered: bool,
}

impl View for TimerFuture {
    type V = TimerState;

    closed spec fn view(&self) -> TimerState {
        TimerState { deadline: self.deadline, ident: self.ident, registered: self.registered }
    }
}

impl TimerFuture {
    /// A timer due `duration` nanoseconds after `now`, with a fresh ident.
    pub fn new(now: u128, duration: u128, idents: &mut TimerIdents) -> (t: TimerFuture)
        requires
            now + duration <= u128::MAX,
            old(idents)@ < usize::MAX,
        ensures
            t@ == (TimerState { deadline: (now + duration) as u128, ident: old(idents)@ as usize, registered: false }),
            final(idents)@ == old(idents)@ + 1,
            t@.ident >= FIRST_TIMER_IDENT,
    {
        TimerFuture { deadline: now + duration, ident: idents.next_timer_ident(), registered: false }
    }

    pub fn poll(&mut self, now: u128) -> (r: TimerPoll)
        ensures
            (final(self)@, r) == timer_step(old(self)@, now),
    {
        if now >= self.deadline {
            return TimerPoll::Ready;
        }
        if !self.registered {
            let millis = (self.deadline - now) / NANOS_PER_MILLI;
            self.registered = true;
            return TimerPoll::Arm(Change::timer(self.ident, millis));
        }
        TimerPoll::Wait
    }
}

/// A timer is ready exactly when its deadline has passed, and a poll never
/// moves the deadline or the ident.
pub proof fn law_timer_ready_exactly_when_due(t: TimerState, now: u128)
    ensures
        (timer_step(t, now).1 == TimerPoll::Ready) <==> now >= t.deadline,
        timer_step(t, now).0.deadline == t.deadline,
        timer_step(t, now).0.ident == t.ident,
{
}

/// A timer arms its kernel timer at most once: after a pending poll it is
/// registered, and a registered timer never arms again.
pub proof fn law_timer_arms_at_most_once(t: TimerState, first: u128, later: u128)
    ensures
        timer_step(t, first).1 != TimerPoll::Ready ==> timer_step(t, first).0.registered,
        t.registered ==> timer_step(t, later).1 == TimerPoll::Ready || timer_step(t, later).1
            == TimerPoll::Wait,
        timer_step(t, first).1 is Arm ==> !(timer_step(timer_step(t, first).0, later).1 is Arm),
{
}

/// The kernel timer a poll arms is a one-shot timer on the timer's own
/// ident, for the whole milliseconds left until the deadline.
pub proof fn law_armed_delay_is_time_left(t: TimerState, now: u128)
    requires
        now < t.deadline,
        !t.registered,
    ensures
        ({
            let left = t.deadline - now;
            exists|millis: u128|
                {
                    &&& millis * NANOS_PER_MILLI <= left < (millis + 1) * NANOS_PER_MILLI
                    &&& timer_step(t, now).1 == TimerPoll::Arm(#[trigger] timer_change(t.ident, millis))
                }
        }),
{
    let left = t.deadline - now;
    let millis = (left / NANOS_PER_MILLI as int) as u128;
    assert(millis * NANOS_PER_MILLI <= left < (millis + 1) * NANOS_PER_MILLI) by (nonlinear_arith)
        requires
            millis == left / 1_000_000,
            left >= 0,
            NANOS_PER_MILLI == 1_000_000,
    ;
    assert(timer_step(t, now).1 == TimerPoll::Arm(timer_change(t.ident, millis)));
}

/// Polling a timer at each of the times `nows`, in order: its state
/// afterwards and the answers.
pub open spec fn timer_run(t: TimerState, nows: Seq<u128>) -> (TimerState, Seq<TimerPoll>)
    decreases nows.len(),
{
    if nows.len() == 0 {
        (t, Seq::empty())
    } else {
        let (u, answers) = timer_run(t, nows.drop_last());
        let (v, r) = timer_step(u, nows.last());
        (v, answers.push(r))
    }
}

/// Over any sequence of polls made before the deadline, a timer stays
/// pending and arms its kernel timer at most once, on the first poll (and
/// not at all if it was armed already); every later poll only waits.
pub proof fn law_timer_arms_once_over_polls(t: TimerState, nows: Seq<u128>)
    requires
        forall|i: int| 0 <= i < nows.len() ==> #[trigger] nows[i] < t.deadline,
    ensures
        ({
            let (u, answers) = timer_run(t, nows);
            &&& answers.len() == nows.len()
            &&& u.deadline == t.deadline && u.ident == t.ident
            &&& (nows.len() > 0 || t.registered) ==> u.registered
            &&& forall|i: int| 0 < i < answers.len() ==> #[trigger] answers[i] == TimerPoll::Wait
            &&& nows.len() > 0 ==> answers[0] == (if t.registered {
                TimerPoll::Wait
            } else {
                TimerPoll::Arm(timer_change(t.ident, ((t.deadline - nows[0]) / NANOS_PER_MILLI as int) as u128))
            })
            &&& !(nows.len() > 0 || t.registered) ==> u == t
        }),
    decreases nows.len(),
{
    if nows.len() > 0 {
        let prefix = nows.drop_last();
        assert forall|i: int| 0 <= i < prefix.len() implies #[trigger] prefix[i] < t.deadline by {
            assert(prefix[i] == nows[i]);
        }
        law_timer_arms_once_over_polls(t, prefix);
        let (u, answers) = timer_run(t, prefix);
        assert(nows.last() == nows[nows.len() - 1]);
        if prefix.len() > 0 {
            assert(prefix[0] == nows[0]);
        }
        let all = timer_run(t, nows).1;
        assert forall|i: int| 0 < i < all.len() implies #[trigger] all[i] == TimerPoll::Wait by {
            if i < answers.len() {
                assert(all[i] == answers[i]);
            }
        }
    }
}

/// What a timer's poll answers: due, it is ready and unchanged; not due and
/// armed, it waits unchanged; not due and not armed, it becomes armed and
/// asks for a one-shot kernel timer on its own ident for the whole
/// milliseconds left.
pub proof fn law_timer_poll_answers(t: TimerState, now: u128)
    ensures
        now >= t.deadline ==> timer_step(t, now) == (t, TimerPoll::Ready),
        now < t.deadline && t.registered ==> timer_step(t, now) == (t, TimerPoll::Wait),
        now < t.deadline && !t.registered ==> {
            &&& timer_step(t, now).0 == TimerState { registered: true, ..t }
            &&& timer_step(t, now).1 == TimerPoll::Arm(
                timer_change(t.ident, ((t.deadline - now) / 1_000_000int) as u128),
            )
        },
{
}

} // verus!
