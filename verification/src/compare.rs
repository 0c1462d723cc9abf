use vstd::prelude::*;

verus! {

/// The longest of the workload's timer durations, or 0 for an empty one.
pub fn longest(durations: &[u64]) -> (m: u64)
    ensures
        forall|i: int| 0 <= i < durations@.len() ==> durations@[i] <= m,
        durations@.len() == 0 ==> m == 0,
        durations@.len() > 0 ==> durations@.contains(m),
{
    let mut m: u64 = 0;
    let mut i: usize = 0;
    while i < durations.len()
        invariant
            i <= durations@.len(),
            forall|j: int| 0 <= j < i ==> durations@[j] <= m,
            i == 0 ==> m == 0,
            i > 0 ==> durations@.subrange(0, i as int).contains(m),
        decreases durations@.len() - i,
    {
        if i == 0 || durations[i] > m {
            m = durations[i];
            assert(durations@.subrange(0, i + 1)[i as int] == m);
        } else {
            let ghost k = choose|k: int| 0 <= k < i && durations@.subrange(0, i as int)[k] == m;
            assert(durations@.subrange(0, i + 1)[k] == m);
        }
        i = i + 1;
    }
    if durations.len() > 0 {
        let ghost k = choose|k: int| 0 <= k < durations@.len() && durations@.subrange(0, durations@.len() as int)[k] == m;
        assert(durations@[k] == m);
    }
    m
}

/// A timer that only checks the clock is ready once its deadline has passed;
/// with nothing to park on, it has to be polled again and again until then.
pub fn spin_timer_ready(deadline: u128, now: u128) -> (ready: bool)
    ensures
        ready == (now >= deadline),
{
    now >= deadline
}

/// The process's CPU time as whole seconds and extra microseconds: user and
/// system time added field by field, each sum taken as unsigned.
pub fn cpu_time_parts(user_sec: i64, user_usec: i64, sys_sec: i64, sys_usec: i64) -> (r: (u64, u64))
    requires
        i64::MIN <= user_sec + sys_sec <= i64::MAX,
        i64::MIN <= user_usec + sys_usec <= i64::MAX,
    ensures
        r.0 == (user_sec + sys_sec) as u64,
        r.1 == (user_usec + sys_usec) as u64,
{
    ((user_sec + sys_sec) as u64, (user_usec + sys_usec) as u64)
}

/// One pass of the busy-poll loop over spin timers at time `now`: the
/// timers that are due are dropped, the rest are kept, in order.
pub fn pending_deadlines(deadlines: &Vec<u128>, now: u128) -> (pending: Vec<u128>)
    ensures
        pending@ == deadlines@.filter(|d: u128| now < d),
{
    let mut pending: Vec<u128> = Vec::new();
    let mut i: usize = 0;
    while i < deadlines.len()
        invariant
            i <= deadlines@.len(),
            pending@ == deadlines@.take(i as int).filter(|d: u128| now < d),
        decreases deadlines@.len() - i,
    {
        let d = deadlines[i];
        proof {
            assert(deadlines@.take(i + 1).drop_last() =~= deadlines@.take(i as int));
            deadlines@.take(i as int).lemma_filter_push(d, |x: u128| now < x);
            assert(deadlines@.take(i as int).push(d) =~= deadlines@.take(i + 1));
        }
        if !spin_timer_ready(d, now) {
            pending.push(d);
        }
        i = i + 1;
    }
    assert(deadlines@.take(deadlines@.len() as int) =~= deadlines@);
    pending
}

} // verus!
