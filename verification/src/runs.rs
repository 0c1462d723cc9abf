//! Laws over whole runs of an executor: any sequence of calls its driver and
//! the tasks' wakers make, one after the other.

use vstd::prelude::*;
use crate::executor::{
    ExecutorState, Event, apply, can_apply, next_action_spec, skip_finished, empty_executor,
    lemma_skip_finished, lemma_adopt_spawned, law_calls_keep_state_well_formed,
    law_woken_task_polled_before_blocking, law_block_only_when_all_pending,
    law_finished_task_stays_finished,
};

verus! {

/// The state after the calls `events`, made in order from `s`.
pub open spec fn run<T>(s: ExecutorState<T>, events: Seq<Event<T>>) -> ExecutorState<T>
    decreases events.len(),
{
    if events.len() == 0 {
        s
    } else {
        apply(run(s, events.drop_last()), events.last())
    }
}

/// Whether each call of `events` may be made in the state it meets.
pub open spec fn can_run<T>(s: ExecutorState<T>, events: Seq<Event<T>>) -> bool
    decreases events.len(),
{
    if events.len() == 0 {
        true
    } else {
        can_run(s, events.drop_last()) && can_apply(run(s, events.drop_last()), events.last())
    }
}

/// How many times `id` occurs in `q`.
pub open spec fn count(q: Seq<usize>, id: usize) -> nat
    decreases q.len(),
{
    if q.len() == 0 {
        0
    } else {
        count(q.drop_last(), id) + if q.last() == id { 1nat } else { 0nat }
    }
}

/// How many times `id` is queued to be polled: in the run queue and in what
/// is left of the current turn.
pub open spec fn queued<T>(s: ExecutorState<T>, id: usize) -> nat {
    count(s.ready, id) + count(s.batch, id)
}

/// Whether the call `e`, made in state `s`, hands out task `id` for polling.
pub open spec fn polls_in<T>(s: ExecutorState<T>, e: Event<T>, id: usize) -> bool {
    e is NextAction && next_action_spec(s).1 is Poll && next_action_spec(s).1->0 == id
}

/// How many times a run hands out task `id` for polling.
pub open spec fn polls<T>(s: ExecutorState<T>, events: Seq<Event<T>>, id: usize) -> nat
    decreases events.len(),
{
    if events.len() == 0 {
        0
    } else {
        polls(s, events.drop_last(), id) + if polls_in(run(s, events.drop_last()), events.last(), id) {
            1nat
        } else {
            0nat
        }
    }
}

/// How many times a run wakes task `id`.
pub open spec fn wakes<T>(events: Seq<Event<T>>, id: usize) -> nat
    decreases events.len(),
{
    if events.len() == 0 {
        0
    } else {
        wakes(events.drop_last(), id) + if events.last() == Event::<T>::Wake(id) { 1nat } else { 0nat }
    }
}

/// 1 when `id` lies in `[lo, hi)`, else 0.
pub open spec fn within(lo: nat, id: usize, hi: nat) -> nat {
    if lo <= id < hi { 1 } else { 0 }
}

proof fn lemma_count_append(a: Seq<usize>, b: Seq<usize>, id: usize)
    ensures
        count(a + b, id) == count(a, id) + count(b, id),
    decreases b.len(),
{
    if b.len() == 0 {
        assert(a + b =~= a);
    } else {
        lemma_count_append(a, b.drop_last(), id);
        assert((a + b).drop_last() =~= a + b.drop_last());
        assert((a + b).last() == b.last());
    }
}

proof fn lemma_count_push(q: Seq<usize>, x: usize, id: usize)
    ensures
        count(q.push(x), id) == count(q, id) + if x == id { 1nat } else { 0nat },
{
    assert(q.push(x).drop_last() =~= q);
}

proof fn lemma_count_suffix(q: Seq<usize>, k: int, id: usize)
    requires
        0 <= k <= q.len(),
    ensures
        count(q.skip(k), id) <= count(q, id),
{
    lemma_count_append(q.take(k), q.skip(k), id);
    assert(q.take(k) + q.skip(k) =~= q);
}

proof fn lemma_count_drop_first(q: Seq<usize>, id: usize)
    requires
        q.len() > 0,
    ensures
        count(q.drop_first(), id) + (if q[0] == id { 1nat } else { 0nat }) == count(q, id),
{
    lemma_count_append(seq![q[0]], q.drop_first(), id);
    assert(seq![q[0]] + q.drop_first() =~= q);
    assert(seq![q[0]].drop_last() =~= Seq::<usize>::empty());
    assert(count(Seq::<usize>::empty(), id) == 0);
    assert(seq![q[0]].last() == q[0]);
    assert(count(seq![q[0]], id) == if q[0] == id { 1nat } else { 0nat });
}

proof fn lemma_count_range(base: nat, n: nat, id: usize)
    requires
        base + n <= usize::MAX + 1,
    ensures
        count(Seq::new(n, |i: int| (base + i) as usize), id) == within(base, id, base + n),
    decreases n,
{
    if n > 0 {
        lemma_count_range(base, (n - 1) as nat, id);
        assert(Seq::new(n, |i: int| (base + i) as usize).drop_last() =~= Seq::new(
            (n - 1) as nat,
            |i: int| (base + i) as usize,
        ));
    }
}

proof fn lemma_count_empty(id: usize)
    ensures
        count(Seq::<usize>::empty(), id) == 0,
{
}

proof fn lemma_adopt_counts<T>(s: ExecutorState<T>, id: usize)
    requires
        s.wf(),
        s.spawned_fit(),
    ensures
        count(s.adopt_spawned().ready, id) == count(s.ready, id) + within(
            s.next_id,
            id,
            s.adopt_spawned().next_id,
        ),
{
    let n = s.spawned.len();
    lemma_count_append(s.ready, Seq::new(n, |i: int| (s.next_id + i) as usize), id);
    lemma_count_range(s.next_id, n, id);
}

/// One call: each time it hands out `id` uses up one queued occurrence of
/// `id`; occurrences come only from a wake of `id` or from `id` being given
/// out as a fresh id.
proof fn lemma_step_polls<T>(s: ExecutorState<T>, e: Event<T>, id: usize)
    requires
        s.wf(),
        can_apply(s, e),
    ensures
        (if polls_in(s, e, id) { 1nat } else { 0nat }) + queued(apply(s, e), id) <= queued(s, id)
            + (if e == Event::<T>::Wake(id) { 1nat } else { 0nat }) + within(
            s.next_id,
            id,
            apply(s, e).next_id,
        ),
{
    law_calls_keep_state_well_formed(s, e);
    match e {
        Event::Spawn(task) => {
            lemma_count_push(s.ready, s.next_id as usize, id);
        },
        Event::QueueSpawn(_) => {},
        Event::Wake(x) => {
            lemma_count_push(s.ready, x, id);
        },
        Event::PollDone(p, task, finished) => {
            let t = ExecutorState {
                tasks: if finished { s.tasks } else { s.tasks.insert(p, task) },
                polling: None,
                ..s
            };
            assert(t.tasks.dom() =~= if finished { s.tasks.dom() } else { s.tasks.dom().insert(p) });
            assert(t.wf());
            lemma_adopt_counts(t, id);
        },
        Event::NextAction => {
            lemma_skip_finished(s.tasks, s.batch);
            let rest = skip_finished(s.tasks, s.batch);
            lemma_count_suffix(s.batch, s.batch.len() - rest.len(), id);
            lemma_count_empty(id);
            if rest.len() > 0 {
                lemma_count_drop_first(rest, id);
            } else if s.in_turn && s.ready.len() == 0 && !s.tasks.is_empty() {
            } else if s.tasks.is_empty() {
            } else {
                lemma_adopt_counts(s, id);
                let a = s.adopt_spawned();
                lemma_skip_finished(a.tasks, a.ready);
                let fresh = skip_finished(a.tasks, a.ready);
                lemma_count_suffix(a.ready, a.ready.len() - fresh.len(), id);
                if fresh.len() > 0 {
                    lemma_count_drop_first(fresh, id);
                }
            }
        },
    }
}

/// No busy polling: over any run, a task is handed out for polling at most
/// as often as it was queued at the start, woken during the run, or given
/// its id during the run (which happens at most once). What is still queued
/// at the end counts against the same budget.
pub proof fn law_polls_bounded_by_wakes<T>(s: ExecutorState<T>, events: Seq<Event<T>>, id: usize)
    requires
        s.wf(),
        can_run(s, events),
    ensures
        run(s, events).wf(),
        run(s, events).next_id >= s.next_id,
        polls(s, events, id) + queued(run(s, events), id) <= queued(s, id) + wakes(events, id)
            + within(s.next_id, id, run(s, events).next_id),
    decreases events.len(),
{
    if events.len() > 0 {
        let prefix = events.drop_last();
        law_polls_bounded_by_wakes(s, prefix, id);
        let mid = run(s, prefix);
        law_calls_keep_state_well_formed(mid, events.last());
        lemma_step_polls(mid, events.last(), id);
    }
}

/// From a fresh executor, every task is polled at most once more than it is
/// woken: once because it was spawned, and once per wake.
pub proof fn law_polls_at_most_one_more_than_wakes<T>(events: Seq<Event<T>>, id: usize)
    requires
        can_run(empty_executor::<T>(), events),
    ensures
        polls(empty_executor::<T>(), events, id) <= wakes(events, id) + 1,
{
    let s = empty_executor::<T>();
    lemma_count_empty(id);
    law_polls_bounded_by_wakes(s, events, id);
}

/// Every live task is queued to be polled: its id is in the run queue or in
/// what is left of the current turn.
pub open spec fn all_queued<T>(s: ExecutorState<T>) -> bool {
    forall|k: usize| #[trigger] s.tasks.contains_key(k) ==> s.ready.contains(k) || s.batch.contains(k)
}

/// A run whose tasks wake themselves whenever they stay pending: each call
/// may be made, and a pending task reports back only after its own id has
/// been queued again.
pub open spec fn self_waking<T>(s: ExecutorState<T>, events: Seq<Event<T>>) -> bool
    decreases events.len(),
{
    if events.len() == 0 {
        true
    } else {
        &&& self_waking(s, events.drop_last())
        &&& can_apply(run(s, events.drop_last()), events.last())
        &&& match events.last() {
            Event::PollDone(p, _, false) => run(s, events.drop_last()).ready.contains(p),
            _ => true,
        }
    }
}

/// No call of the run is a `NextAction` answered with `Block`.
pub open spec fn never_blocks<T>(s: ExecutorState<T>, events: Seq<Event<T>>) -> bool
    decreases events.len(),
{
    if events.len() == 0 {
        true
    } else {
        &&& never_blocks(s, events.drop_last())
        &&& (events.last() is NextAction ==> !(next_action_spec(run(s, events.drop_last())).1 is Block))
    }
}

proof fn lemma_suffix_keeps_live<T>(tasks: Map<usize, T>, batch: Seq<usize>, k: usize)
    requires
        tasks.contains_key(k),
        batch.contains(k),
    ensures
        skip_finished(tasks, batch).contains(k),
{
    lemma_skip_finished(tasks, batch);
    let rest = skip_finished(tasks, batch);
    let j = choose|j: int| 0 <= j < batch.len() && batch[j] == k;
    let off = batch.len() - rest.len();
    assert(j >= off);
    assert(rest[j - off] == k);
}

proof fn lemma_drop_first_keeps(q: Seq<usize>, k: usize)
    requires
        q.contains(k),
        q[0] != k,
    ensures
        q.drop_first().contains(k),
{
    let j = choose|j: int| 0 <= j < q.len() && q[j] == k;
    assert(q.drop_first()[j - 1] == k);
}

/// One call of a self-waking run keeps every live task queued, and a
/// `NextAction` is never answered with `Block`.
proof fn lemma_self_waking_step<T>(s: ExecutorState<T>, e: Event<T>)
    requires
        s.wf(),
        can_apply(s, e),
        all_queued(s),
        match e {
            Event::PollDone(p, _, false) => s.ready.contains(p),
            _ => true,
        },
    ensures
        all_queued(apply(s, e)),
        e is NextAction ==> !(next_action_spec(s).1 is Block),
{
    law_calls_keep_state_well_formed(s, e);
    let t = apply(s, e);
    match e {
        Event::Spawn(task) => {
            assert forall|k: usize| #[trigger] t.tasks.contains_key(k) implies t.ready.contains(k)
                || t.batch.contains(k) by {
                if k == s.next_id as usize {
                    assert(t.ready[s.ready.len() as int] == k);
                } else if s.ready.contains(k) {
                    let j = choose|j: int| 0 <= j < s.ready.len() && s.ready[j] == k;
                    assert(t.ready[j] == k);
                }
            }
        },
        Event::QueueSpawn(_) => {},
        Event::Wake(x) => {
            assert forall|k: usize| #[trigger] t.tasks.contains_key(k) implies t.ready.contains(k)
                || t.batch.contains(k) by {
                if s.ready.contains(k) {
                    let j = choose|j: int| 0 <= j < s.ready.len() && s.ready[j] == k;
                    assert(t.ready[j] == k);
                }
            }
        },
        Event::PollDone(p, task, finished) => {
            let m = ExecutorState {
                tasks: if finished { s.tasks } else { s.tasks.insert(p, task) },
                polling: None,
                ..s
            };
            assert(m.wf());
            lemma_adopt_spawned(m);
            assert forall|k: usize| #[trigger] t.tasks.contains_key(k) implies t.ready.contains(k)
                || t.batch.contains(k) by {
                if m.tasks.contains_key(k) {
                    if m.ready.contains(k) {
                        let j = choose|j: int| 0 <= j < m.ready.len() && m.ready[j] == k;
                        assert(t.ready[j] == k);
                    }
                } else {
                    let j = k - m.next_id;
                    assert(t.ready[m.ready.len() + j] == k);
                }
            }
        },
        Event::NextAction => {
            lemma_skip_finished(s.tasks, s.batch);
            let rest = skip_finished(s.tasks, s.batch);
            if !s.tasks.is_empty() {
                let k0 = choose|k: usize| s.tasks.contains_key(k);
                assert(s.tasks.contains_key(k0));
                law_woken_task_polled_before_blocking(s, k0);
            }
            if rest.len() > 0 {
                assert forall|k: usize| #[trigger] t.tasks.contains_key(k) implies t.ready.contains(k)
                    || t.batch.contains(k) by {
                    if s.batch.contains(k) {
                        lemma_suffix_keeps_live(s.tasks, s.batch, k);
                        lemma_drop_first_keeps(rest, k);
                    }
                }
            } else if s.tasks.is_empty() {
            } else {
                lemma_adopt_spawned(s);
                let a = s.adopt_spawned();
                lemma_skip_finished(a.tasks, a.ready);
                let fresh = skip_finished(a.tasks, a.ready);
                assert forall|k: usize| #[trigger] t.tasks.contains_key(k) implies t.ready.contains(k)
                    || t.batch.contains(k) by {
                    assert(a.tasks.contains_key(k));
                    if s.tasks.contains_key(k) {
                        if s.batch.contains(k) {
                            lemma_suffix_keeps_live(s.tasks, s.batch, k);
                        }
                        let j = choose|j: int| 0 <= j < s.ready.len() && s.ready[j] == k;
                        assert(a.ready[j] == k);
                    } else {
                        let j = k - s.next_id;
                        assert(a.ready[s.ready.len() + j] == k);
                    }
                    lemma_suffix_keeps_live(a.tasks, a.ready, k);
                    lemma_drop_first_keeps(fresh, k);
                }
            }
        },
    }
}

/// A run whose tasks wake themselves whenever they stay pending never blocks
/// in the reactor: every live task stays queued, so each `NextAction` either
/// polls a task or finishes, and it finishes only once no task is left.
pub proof fn law_self_waking_run_never_blocks<T>(s: ExecutorState<T>, events: Seq<Event<T>>)
    requires
        s.wf(),
        all_queued(s),
        self_waking(s, events),
    ensures
        run(s, events).wf(),
        all_queued(run(s, events)),
        never_blocks(s, events),
    decreases events.len(),
{
    if events.len() > 0 {
        let prefix = events.drop_last();
        law_self_waking_run_never_blocks(s, prefix);
        lemma_self_waking_step(run(s, prefix), events.last());
        law_calls_keep_state_well_formed(run(s, prefix), events.last());
    }
}

/// A fresh executor has no live task, so trivially every live task is
/// queued, and every self-waking run from it never blocks.
pub proof fn law_fresh_self_waking_run_never_blocks<T>(events: Seq<Event<T>>)
    requires
        self_waking(empty_executor::<T>(), events),
    ensures
        never_blocks(empty_executor::<T>(), events),
{
    law_self_waking_run_never_blocks(empty_executor::<T>(), events);
}

/// When a run's last call is a `NextAction` answered with `Finish`, every
/// task ever adopted in it has finished: none is live afterwards.
pub proof fn law_finish_means_all_tasks_done<T>(s: ExecutorState<T>, events: Seq<Event<T>>, k: usize)
    requires
        s.wf(),
        can_run(s, events),
        events.len() > 0,
        events.last() is NextAction,
        next_action_spec(run(s, events.drop_last())).1 is Finish,
    ensures
        !run(s, events).is_live(k),
{
    law_polls_bounded_by_wakes(s, events.drop_last(), k);
    let mid = run(s, events.drop_last());
    law_block_only_when_all_pending(mid);
}

/// A run whose driver reports a task finished no later than its
/// `budget`-th poll: a task reported pending has been polled fewer times
/// than its budget.
pub open spec fn within_budget<T>(s: ExecutorState<T>, events: Seq<Event<T>>, budget: spec_fn(usize) -> nat) -> bool
    decreases events.len(),
{
    if events.len() == 0 {
        true
    } else {
        &&& within_budget(s, events.drop_last(), budget)
        &&& match events.last() {
            Event::PollDone(p, _, false) => polls(s, events.drop_last(), p) < budget(p),
            _ => true,
        }
    }
}

proof fn lemma_budget_invariant<T>(
    s: ExecutorState<T>,
    events: Seq<Event<T>>,
    budget: spec_fn(usize) -> nat,
    y: usize,
)
    requires
        s == empty_executor::<T>(),
        can_run(s, events),
        within_budget(s, events, budget),
        budget(y) >= 1,
    ensures
        run(s, events).wf(),
        polls(s, events, y) <= budget(y),
        polls(s, events, y) == budget(y) ==> !run(s, events).tasks.contains_key(y),
        y >= run(s, events).next_id ==> polls(s, events, y) == 0,
    decreases events.len(),
{
    if events.len() > 0 {
        let prefix = events.drop_last();
        let e = events.last();
        lemma_budget_invariant(s, prefix, budget, y);
        let m = run(s, prefix);
        let t = apply(m, e);
        law_calls_keep_state_well_formed(m, e);
        if polls_in(m, e, y) {
            law_block_only_when_all_pending(m);
            if !m.tasks.contains_key(y) {
                lemma_adopt_spawned(m);
            }
        } else if polls(s, prefix, y) == budget(y) {
            if m.polling != Some(y) {
                law_finished_task_stays_finished(m, e, y);
            } else {
                match e {
                    Event::PollDone(p, task, finished) => {
                        let u = ExecutorState {
                            tasks: if finished { m.tasks } else { m.tasks.insert(p, task) },
                            polling: None,
                            ..m
                        };
                        assert(u.wf());
                        lemma_adopt_spawned(u);
                    },
                    _ => {},
                }
            }
        }
    }
}

/// Runs whose tasks each finish within a budget of polls: no task is polled
/// more often than its budget. (`law_self_waking_run_within_budget_finishes`
/// builds on this to show that such runs, when self-waking, reach `Finish`.)
pub proof fn law_polls_within_budget<T>(events: Seq<Event<T>>, budget: spec_fn(usize) -> nat, id: usize)
    requires
        can_run(empty_executor::<T>(), events),
        within_budget(empty_executor::<T>(), events, budget),
        forall|k: usize| #[trigger] budget(k) >= 1,
    ensures
        polls(empty_executor::<T>(), events, id) <= budget(id),
{
    lemma_budget_invariant(empty_executor::<T>(), events, budget, id);
}

/// A run in which tasks are queued for spawning only from inside a poll:
/// each `QueueSpawn` comes while a task is handed out.
pub open spec fn spawns_during_polls<T>(s: ExecutorState<T>, events: Seq<Event<T>>) -> bool
    decreases events.len(),
{
    if events.len() == 0 {
        true
    } else {
        &&& spawns_during_polls(s, events.drop_last())
        &&& (events.last() is QueueSpawn ==> run(s, events.drop_last()).polling is Some)
    }
}

proof fn lemma_spawn_queue_invariant<T>(s: ExecutorState<T>, events: Seq<Event<T>>)
    requires
        s.wf(),
        s.polling is None ==> s.spawned.len() == 0,
        can_run(s, events),
        spawns_during_polls(s, events),
    ensures
        run(s, events).wf(),
        run(s, events).polling is None ==> run(s, events).spawned.len() == 0,
    decreases events.len(),
{
    if events.len() > 0 {
        let prefix = events.drop_last();
        lemma_spawn_queue_invariant(s, prefix);
        let m = run(s, prefix);
        law_calls_keep_state_well_formed(m, events.last());
    }
}

/// When tasks are queued for spawning only from inside polls, every queued
/// task has been adopted by the time the executor answers `Finish`: the
/// spawn queue is empty then, as is the task table.
pub proof fn law_spawn_queue_empty_at_finish<T>(events: Seq<Event<T>>)
    requires
        can_run(empty_executor::<T>(), events),
        spawns_during_polls(empty_executor::<T>(), events),
        events.len() > 0,
        events.last() is NextAction,
        next_action_spec(run(empty_executor::<T>(), events.drop_last())).1 is Finish,
    ensures
        run(empty_executor::<T>(), events).spawned.len() == 0,
        run(empty_executor::<T>(), events).tasks.is_empty(),
{
    let s = empty_executor::<T>();
    lemma_spawn_queue_invariant(s, events.drop_last());
    law_block_only_when_all_pending(run(s, events.drop_last()));
}

/// How many `NextAction` calls a run makes.
pub open spec fn next_actions<T>(events: Seq<Event<T>>) -> nat
    decreases events.len(),
{
    if events.len() == 0 {
        0
    } else {
        next_actions(events.drop_last()) + if events.last() is NextAction { 1nat } else { 0nat }
    }
}

/// How many `NextAction` calls of a run are answered with a poll.
pub open spec fn total_polls<T>(s: ExecutorState<T>, events: Seq<Event<T>>) -> nat
    decreases events.len(),
{
    if events.len() == 0 {
        0
    } else {
        total_polls(s, events.drop_last()) + if events.last() is NextAction && next_action_spec(
            run(s, events.drop_last()),
        ).1 is Poll {
            1nat
        } else {
            0nat
        }
    }
}

/// How many `NextAction` calls of a run are answered with `Finish`.
pub open spec fn finishes<T>(s: ExecutorState<T>, events: Seq<Event<T>>) -> nat
    decreases events.len(),
{
    if events.len() == 0 {
        0
    } else {
        finishes(s, events.drop_last()) + if events.last() is NextAction && next_action_spec(
            run(s, events.drop_last()),
        ).1 is Finish {
            1nat
        } else {
            0nat
        }
    }
}

/// How many tasks a run spawns, at the top level or from inside tasks.
pub open spec fn spawn_calls<T>(events: Seq<Event<T>>) -> nat
    decreases events.len(),
{
    if events.len() == 0 {
        0
    } else {
        spawn_calls(events.drop_last()) + if events.last() is Spawn || events.last() is QueueSpawn {
            1nat
        } else {
            0nat
        }
    }
}

/// The polls of the ids below `n`, added up.
pub open spec fn poll_sum<T>(s: ExecutorState<T>, events: Seq<Event<T>>, n: nat) -> nat
    decreases n,
{
    if n == 0 {
        0
    } else {
        poll_sum(s, events, (n - 1) as nat) + polls(s, events, (n - 1) as usize)
    }
}

/// How many of the ids below `n` the call `e`, made in state `m`, hands out.
pub open spec fn handed_out_below<T>(m: ExecutorState<T>, e: Event<T>, n: nat) -> nat
    decreases n,
{
    if n == 0 {
        0
    } else {
        handed_out_below(m, e, (n - 1) as nat) + if polls_in(m, e, (n - 1) as usize) { 1nat } else { 0nat }
    }
}

proof fn lemma_handed_out_below<T>(m: ExecutorState<T>, e: Event<T>, n: nat)
    requires
        n <= usize::MAX + 1,
    ensures
        handed_out_below(m, e, n) == if e is NextAction && next_action_spec(m).1 is Poll
            && next_action_spec(m).1->0 < n {
            1nat
        } else {
            0nat
        },
    decreases n,
{
    if n > 0 {
        lemma_handed_out_below(m, e, (n - 1) as nat);
    }
}

proof fn lemma_poll_sum_step<T>(s: ExecutorState<T>, events: Seq<Event<T>>, n: nat)
    requires
        events.len() > 0,
        n <= usize::MAX + 1,
    ensures
        poll_sum(s, events, n) == poll_sum(s, events.drop_last(), n) + handed_out_below(
            run(s, events.drop_last()),
            events.last(),
            n,
        ),
    decreases n,
{
    if n > 0 {
        lemma_poll_sum_step(s, events, (n - 1) as nat);
    }
}

proof fn lemma_total_polls_is_poll_sum<T>(s: ExecutorState<T>, events: Seq<Event<T>>, n: nat)
    requires
        s.wf(),
        can_run(s, events),
        run(s, events).next_id <= n <= usize::MAX + 1,
    ensures
        total_polls(s, events) == poll_sum(s, events, n),
    decreases events.len(),
{
    if events.len() == 0 {
        lemma_poll_sum_zero(s, events, n);
    } else {
        let prefix = events.drop_last();
        let m = run(s, prefix);
        let e = events.last();
        law_polls_bounded_by_wakes(s, prefix, 0);
        law_calls_keep_state_well_formed(m, e);
        lemma_total_polls_is_poll_sum(s, prefix, n);
        lemma_poll_sum_step(s, events, n);
        lemma_handed_out_below(m, e, n);
        if e is NextAction && next_action_spec(m).1 is Poll {
            law_block_only_when_all_pending(m);
        }
    }
}

proof fn lemma_poll_sum_zero<T>(s: ExecutorState<T>, events: Seq<Event<T>>, n: nat)
    requires
        events.len() == 0,
    ensures
        poll_sum(s, events, n) == 0,
    decreases n,
{
    if n > 0 {
        lemma_poll_sum_zero(s, events, (n - 1) as nat);
    }
}

proof fn lemma_poll_sum_bounded<T>(s: ExecutorState<T>, events: Seq<Event<T>>, n: nat, bound: nat)
    requires
        n <= usize::MAX + 1,
        forall|k: usize| #[trigger] polls(s, events, k) <= bound,
    ensures
        poll_sum(s, events, n) <= bound * n,
    decreases n,
{
    if n > 0 {
        lemma_poll_sum_bounded(s, events, (n - 1) as nat, bound);
        assert(polls(s, events, (n - 1) as usize) <= bound);
        assert(bound * (n - 1) + bound == bound * n) by (nonlinear_arith);
    }
}

proof fn lemma_ids_bounded_by_spawns<T>(events: Seq<Event<T>>)
    requires
        can_run(empty_executor::<T>(), events),
    ensures
        run(empty_executor::<T>(), events).wf(),
        run(empty_executor::<T>(), events).next_id + run(empty_executor::<T>(), events).spawned.len()
            <= spawn_calls(events),
    decreases events.len(),
{
    if events.len() > 0 {
        let prefix = events.drop_last();
        lemma_ids_bounded_by_spawns(prefix);
        law_calls_keep_state_well_formed(run(empty_executor::<T>(), prefix), events.last());
    }
}

proof fn lemma_answers_split<T>(s: ExecutorState<T>, events: Seq<Event<T>>)
    requires
        never_blocks(s, events),
    ensures
        next_actions(events) == total_polls(s, events) + finishes(s, events),
    decreases events.len(),
{
    if events.len() > 0 {
        lemma_answers_split(s, events.drop_last());
    }
}

proof fn lemma_self_waking_can_run<T>(s: ExecutorState<T>, events: Seq<Event<T>>)
    requires
        self_waking(s, events),
    ensures
        can_run(s, events),
    decreases events.len(),
{
    if events.len() > 0 {
        lemma_self_waking_can_run(s, events.drop_last());
    }
}

/// A self-waking run whose tasks each finish within `bound` polls reaches
/// `Finish`: it never blocks, it hands out at most `bound` polls per task
/// spawned, and every other answer is `Finish`. So once the driver has asked
/// for the next action more than `bound` times the number of spawns, it has
/// been told to finish, and then no task is left
/// (`law_finish_means_all_tasks_done`).
pub proof fn law_self_waking_run_within_budget_finishes<T>(
    events: Seq<Event<T>>,
    budget: spec_fn(usize) -> nat,
    bound: nat,
)
    requires
        self_waking(empty_executor::<T>(), events),
        within_budget(empty_executor::<T>(), events, budget),
        forall|k: usize| 1 <= #[trigger] budget(k) <= bound,
    ensures
        never_blocks(empty_executor::<T>(), events),
        total_polls(empty_executor::<T>(), events) <= bound * spawn_calls(events),
        next_actions(events) == total_polls(empty_executor::<T>(), events) + finishes(
            empty_executor::<T>(),
            events,
        ),
        next_actions(events) > bound * spawn_calls(events) ==> finishes(empty_executor::<T>(), events)
            > 0,
{
    let s = empty_executor::<T>();
    law_fresh_self_waking_run_never_blocks(events);
    lemma_self_waking_can_run(s, events);
    lemma_answers_split(s, events);
    lemma_ids_bounded_by_spawns(events);
    let n = run(s, events).next_id;
    assert forall|k: usize| #[trigger] polls(s, events, k) <= bound by {
        law_polls_within_budget(events, budget, k);
    }
    lemma_total_polls_is_poll_sum(s, events, n);
    lemma_poll_sum_bounded(s, events, n, bound);
    assert(bound * n <= bound * spawn_calls(events)) by (nonlinear_arith)
        requires
            n <= spawn_calls(events),
    ;
}

} // verus!
