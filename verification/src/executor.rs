use vstd::prelude::*;
use std::collections::HashMap;
use std::collections::VecDeque;

verus! {

broadcast use {
    vstd::std_specs::hash::group_hash_axioms,
    vstd::std_specs::vecdeque::group_vec_dequeue_axioms,
};

/// What the executor asks its driver to do next.
#[derive(PartialEq, Eq, Debug)]
pub enum Action<T> {
    /// Poll the task with this id. The task is handed out and must come back
    /// through `Executor::poll_done` before the next action is asked for.
    Poll(usize, T),
    /// Every remaining task is pending and none is ready: block in the
    /// reactor until an event wakes one of them.
    Block,
    /// No task is left: the run is over.
    Finish,
}

/// The abstract state of an executor.
pub struct ExecutorState<T> {
    /// Live tasks by id (the one being polled, if any, is not here).
    pub tasks: Map<usize, T>,
    /// The run queue: ids woken since the current turn's snapshot was taken.
    pub ready: Seq<usize>,
    /// What is left of the current turn's snapshot of the run queue.
    pub batch: Seq<usize>,
    /// Whether a turn is under way (its snapshot has been taken).
    pub in_turn: bool,
    /// Tasks spawned from inside other tasks, not yet adopted.
    pub spawned: Seq<T>,
    /// The task handed out for polling and not yet reported back.
    pub polling: Option<usize>,
    /// The id the next adopted task gets.
    pub next_id: nat,
}

impl<T> ExecutorState<T> {
    /// Every id in use is below `next_id`, and the task being polled is not
    /// also in the table.
    pub open spec fn wf(self) -> bool {
        &&& self.tasks.dom().finite()
        &&& forall|id: usize| #[trigger] self.tasks.contains_key(id) ==> id < self.next_id
        &&& self.next_id <= usize::MAX
        &&& (!self.in_turn ==> self.batch.len() == 0)
        &&& match self.polling {
            Some(p) => p < self.next_id && !self.tasks.contains_key(p),
            None => true,
        }
    }

    /// The task with this id has been adopted and has not finished.
    pub open spec fn is_live(self, id: usize) -> bool {
        self.tasks.contains_key(id) || self.polling == Some(id)
    }

    /// Whether adopting every spawned task keeps ids within `usize`.
    pub open spec fn spawned_fit(self) -> bool {
        self.next_id + self.spawned.len() <= usize::MAX
    }

    /// Adopting the spawned tasks: each gets the next id, in spawn order, and
    /// is queued as ready.
    pub open spec fn adopt_spawned(self) -> ExecutorState<T> {
        let n = self.spawned.len();
        let base = self.next_id;
        ExecutorState {
            tasks: self.tasks.union_prefer_right(
                Map::new(
                    |k: usize| base <= k < base + n,
                    |k: usize| self.spawned[k - base],
                ),
            ),
            ready: self.ready + Seq::new(n, |i: int| (base + i) as usize),
            spawned: Seq::empty(),
            next_id: base + n,
            ..self
        }
    }
}

/// The ids that remain of `batch` once the leading ids of finished tasks are
/// passed over.
pub open spec fn skip_finished<T>(tasks: Map<usize, T>, batch: Seq<usize>) -> Seq<usize>
    decreases batch.len(),
{
    if batch.len() == 0 {
        batch
    } else if tasks.contains_key(batch[0]) {
        batch
    } else {
        skip_finished(tasks, batch.drop_first())
    }
}

/// What `skip_finished` leaves is a suffix of the batch that starts with a
/// live task, if it is not empty.
pub proof fn lemma_skip_finished<T>(tasks: Map<usize, T>, batch: Seq<usize>)
    ensures
        skip_finished(tasks, batch).len() <= batch.len(),
        skip_finished(tasks, batch) == batch.skip(batch.len() - skip_finished(tasks, batch).len()),
        skip_finished(tasks, batch).len() > 0 ==> tasks.contains_key(skip_finished(tasks, batch)[0]),
        forall|i: int|
            0 <= i < batch.len() - skip_finished(tasks, batch).len() ==> !tasks.contains_key(
                #[trigger] batch[i],
            ),
    decreases batch.len(),
{
    if batch.len() > 0 && !tasks.contains_key(batch[0]) {
        lemma_skip_finished(tasks, batch.drop_first());
        assert forall|i: int|
            0 <= i < batch.len() - skip_finished(tasks, batch).len() implies !tasks.contains_key(
                #[trigger] batch[i],
            ) by {
            if i > 0 {
                assert(batch[i] == batch.drop_first()[i - 1]);
            }
        }
        assert(batch.drop_first().skip(
            batch.drop_first().len() - skip_finished(tasks, batch.drop_first()).len(),
        ) =~= batch.skip(batch.len() - skip_finished(tasks, batch).len()));
    } else {
        assert(batch.skip(0) =~= batch);
    }
}

/// Handing out the first live task of `batch` for polling.
pub open spec fn hand_out<T>(s: ExecutorState<T>, batch: Seq<usize>) -> (ExecutorState<T>, Action<T>)
    recommends
        batch.len() > 0,
{
    let id = batch[0];
    (
        ExecutorState {
            tasks: s.tasks.remove(id),
            batch: batch.drop_first(),
            in_turn: true,
            polling: Some(id),
            ..s
        },
        Action::Poll(id, s.tasks[id]),
    )
}

/// The executor's decision: the state after asking for the next action, and
/// the action.
///
/// A turn takes a snapshot of the run queue and polls the live tasks of that
/// snapshot in order; ids of tasks that finished meanwhile are passed over.
/// When the snapshot is used up and nothing was woken while tasks remain, the
/// executor blocks; otherwise a new turn starts, unless no task is left.
pub open spec fn next_action_spec<T>(s: ExecutorState<T>) -> (ExecutorState<T>, Action<T>) {
    let rest = skip_finished(s.tasks, s.batch);
    if rest.len() > 0 {
        hand_out(s, rest)
    } else if s.in_turn && s.ready.len() == 0 && !s.tasks.is_empty() {
        (ExecutorState { batch: Seq::empty(), in_turn: false, ..s }, Action::Block)
    } else if s.tasks.is_empty() {
        (ExecutorState { batch: Seq::empty(), in_turn: false, ..s }, Action::Finish)
    } else {
        let a = s.adopt_spawned();
        let fresh = skip_finished(a.tasks, a.ready);
        let started = ExecutorState { ready: Seq::empty(), ..a };
        if fresh.len() > 0 {
            hand_out(started, fresh)
        } else {
            (ExecutorState { batch: Seq::empty(), in_turn: false, ..started }, Action::Block)
        }
    }
}

/// The state after the task handed out as `id` reports back: a finished task
/// is dropped, a pending one returns to the table, and tasks spawned during
/// the poll are adopted.
pub open spec fn poll_done_spec<T>(s: ExecutorState<T>, id: usize, task: T, finished: bool) -> ExecutorState<T> {
    ExecutorState {
        tasks: if finished { s.tasks } else { s.tasks.insert(id, task) },
        polling: None,
        ..s
    }.adopt_spawned()
}

/// Spawning a top-level task: it gets the next id and is queued as ready.
pub open spec fn spawn_spec<T>(s: ExecutorState<T>, task: T) -> ExecutorState<T> {
    ExecutorState {
        tasks: s.tasks.insert(s.next_id as usize, task),
        ready: s.ready.push(s.next_id as usize),
        next_id: s.next_id + 1,
        ..s
    }
}

/// Queueing a task spawned from inside another task.
pub open spec fn queue_spawn_spec<T>(s: ExecutorState<T>, task: T) -> ExecutorState<T> {
    ExecutorState { spawned: s.spawned.push(task), ..s }
}

/// Waking the task `id`: its id goes to the back of the run queue.
pub open spec fn wake_spec<T>(s: ExecutorState<T>, id: usize) -> ExecutorState<T> {
    ExecutorState { ready: s.ready.push(id), ..s }
}

/// The scheduler of a single-threaded executor. It owns the task table and
/// the run queue; the driver performs the actions it asks for.
pub struct Executor<T> {
    tasks: HashMap<usize, T>,
    ready: VecDeque<usize>,
    batch: VecDeque<usize>,
    in_turn: bool,
    spawned: VecDeque<T>,
    polling: Option<usize>,
    next_id: usize,
}

impl<T> View for Executor<T> {
    type V = ExecutorState<T>;

    closed spec fn view(&self) -> ExecutorState<T> {
        ExecutorState {
            tasks: self.tasks@,
            ready: self.ready@,
            batch: self.batch@,
            in_turn: self.in_turn,
            spawned: self.spawned@,
            polling: self.polling,
            next_id: self.next_id as nat,
        }
    }
}

/// The state of an executor that has nothing yet.
pub open spec fn empty_executor<T>() -> ExecutorState<T> {
    ExecutorState {
        tasks: Map::empty(),
        ready: Seq::empty(),
        batch: Seq::empty(),
        in_turn: false,
        spawned: Seq::empty(),
        polling: None,
        next_id: 0,
    }
}

impl<T> Default for Executor<T> {
    fn default() -> (e: Self)
        ensures
            e@.wf(),
            e@ == empty_executor::<T>(),
    {
        Self::new()
    }
}

impl<T> Executor<T> {
    pub fn new() -> (e: Executor<T>)
        ensures
            e@.wf(),
            e@ == empty_executor::<T>(),
    {
        Executor {
            tasks: HashMap::new(),
            ready: VecDeque::new(),
            batch: VecDeque::new(),
            in_turn: false,
            spawned: VecDeque::new(),
            polling: None,
            next_id: 0,
        }
    }

    /// Whether another task can get an id.
    pub fn can_spawn(&self) -> (b: bool)
        ensures
            b == (self@.next_id < usize::MAX),
    {
        self.next_id < usize::MAX
    }

    /// Whether every queued child task can get an id.
    pub fn spawned_fit(&self) -> (b: bool)
        ensures
            b == self@.spawned_fit(),
    {
        self.spawned.len() <= usize::MAX - self.next_id
    }

    /// Registers a top-level task: it gets the next id and is queued as ready.
    pub fn spawn(&mut self, task: T)
        requires
            old(self)@.wf(),
            old(self)@.next_id < usize::MAX,
        ensures
            final(self)@.wf(),
            final(self)@ == spawn_spec(old(self)@, task),
    {
        self.add_task(task);
    }

    fn add_task(&mut self, task: T)
        requires
            old(self)@.wf(),
            old(self)@.next_id < usize::MAX,
        ensures
            final(self)@.wf(),
            final(self)@ == spawn_spec(old(self)@, task),
    {
        let id = self.next_id;
        self.next_id = id + 1;
        self.tasks.insert(id, task);
        self.ready.push_back(id);
    }
    /// Queues a task spawned from inside another task; it is adopted after
    /// the poll that spawned it.
    pub fn queue_spawn(&mut self, task: T)
        requires
            old(self)@.wf(),
        ensures
            final(self)@.wf(),
            final(self)@ == queue_spawn_spec(old(self)@, task),
    {
        self.spawned.push_back(task);
    }

    /// What a task's waker does: put its id at the back of the run queue.
    pub fn wake(&mut self, id: usize)
        requires
            old(self)@.wf(),
        ensures
            final(self)@.wf(),
            final(self)@ == wake_spec(old(self)@, id),
    {
        self.ready.push_back(id);
    }

    /// Adopts every task spawned since the last check, in spawn order.
    fn drain_spawned(&mut self)
        requires
            old(self)@.wf(),
            old(self)@.spawned_fit(),
        ensures
            final(self)@.wf(),
            final(self)@ == old(self)@.adopt_spawned(),
    {
        let ghost s0 = self@;
        let ghost n = s0.spawned.len();
        while self.spawned.len() > 0
            invariant
                self@.wf(),
                s0.wf(),
                s0.spawned_fit(),
                n == s0.spawned.len(),
                self@.spawned.len() <= n,
                self@.spawned == s0.spawned.skip(n - self@.spawned.len()),
                self@.next_id == s0.next_id + (n - self@.spawned.len()),
                self@.tasks == s0.tasks.union_prefer_right(
                    Map::new(
                        |k: usize| s0.next_id <= k < self@.next_id,
                        |k: usize| s0.spawned[k - s0.next_id],
                    ),
                ),
                self@.ready == s0.ready + Seq::new(
                    (n - self@.spawned.len()) as nat,
                    |i: int| (s0.next_id + i) as usize,
                ),
                self@.batch == s0.batch,
                self@.in_turn == s0.in_turn,
                self@.polling == s0.polling,
            decreases self@.spawned.len(),
        {
            let ghost before = self@;
            let task = self.spawned.pop_front().unwrap();
            proof {
                let i = n - before.spawned.len();
                assert(task == s0.spawned[i]);
            }
            self.add_task(task);
            proof {
                let i = n - before.spawned.len();
                assert(self@.spawned =~= s0.spawned.skip(i + 1));
                assert(self@.tasks =~= s0.tasks.union_prefer_right(
                    Map::new(
                        |k: usize| s0.next_id <= k < self@.next_id,
                        |k: usize| s0.spawned[k - s0.next_id],
                    ),
                ));
                assert(self@.ready =~= s0.ready + Seq::new(
                    (i + 1) as nat,
                    |j: int| (s0.next_id + j) as usize,
                ));
            }
        }
        proof {
            assert(self@.tasks =~= s0.adopt_spawned().tasks);
            assert(self@.ready =~= s0.adopt_spawned().ready);
            assert(self@.spawned =~= Seq::<T>::empty());
        }
    }


    /// Passes over the leading ids of finished tasks in the current snapshot
    /// and hands out the first live one.
    fn take_live_from_batch(&mut self) -> (r: Option<(usize, T)>)
        requires
            old(self)@.wf(),
            old(self)@.polling is None,
        ensures
            final(self)@.wf(),
            ({
                let rest = skip_finished(old(self)@.tasks, old(self)@.batch);
                if rest.len() > 0 {
                    &&& r == Some((rest[0], old(self)@.tasks[rest[0]]))
                    &&& final(self)@ == hand_out(old(self)@, rest).0
                } else {
                    &&& r is None
                    &&& final(self)@ == (ExecutorState { batch: Seq::empty(), ..old(self)@ })
                }
            }),
    {
        let ghost s0 = self@;
        proof {
            lemma_skip_finished(s0.tasks, s0.batch);
        }
        while self.batch.len() > 0
            invariant
                self@.wf(),
                s0 == old(self)@,
                s0.wf(),
                s0.polling is None,
                skip_finished(self@.tasks, self@.batch) == skip_finished(s0.tasks, s0.batch),
                self@ == (ExecutorState { batch: self@.batch, ..s0 }),
            decreases self@.batch.len(),
        {
            let ghost before = self@.batch;
            let id = self.batch.pop_front().unwrap();
            assert(self@.batch =~= before.drop_first());
            match self.tasks.remove(&id) {
                Some(task) => {
                    self.polling = Some(id);
                    proof {
                        assert(s0.tasks.contains_key(id));
                        assert(skip_finished(s0.tasks, before) == before);
                        assert(self@.tasks =~= s0.tasks.remove(id));
                    }
                    return Some((id, task));
                },
                None => {
                    assert(self@.tasks =~= s0.tasks);
                },
            }
        }
        assert(self@.batch =~= Seq::<usize>::empty());
        None
    }

    /// Decides the next step of the run loop (see `next_action_spec`).
    pub fn next_action(&mut self) -> (a: Action<T>)
        requires
            old(self)@.wf(),
            old(self)@.polling is None,
            old(self)@.spawned_fit(),
        ensures
            final(self)@.wf(),
            (final(self)@, a) == next_action_spec(old(self)@),
    {
        match self.take_live_from_batch() {
            Some((id, task)) => {
                return Action::Poll(id, task);
            },
            None => {},
        }
        if self.in_turn && self.ready.len() == 0 && !self.tasks.is_empty() {
            self.in_turn = false;
            return Action::Block;
        }
        self.in_turn = false;
        if self.tasks.is_empty() {
            return Action::Finish;
        }
        self.drain_spawned();
        // Snapshot the run queue: what is woken from now on waits for the next turn.
        std::mem::swap(&mut self.batch, &mut self.ready);
        self.in_turn = true;
        match self.take_live_from_batch() {
            Some((id, task)) => {
                return Action::Poll(id, task);
            },
            None => {},
        }
        self.in_turn = false;
        Action::Block
    }

    /// The task handed out as `id` reports back from its poll.
    pub fn poll_done(&mut self, id: usize, task: T, finished: bool)
        requires
            old(self)@.wf(),
            old(self)@.polling == Some(id),
            old(self)@.spawned_fit(),
        ensures
            final(self)@.wf(),
            final(self)@ == poll_done_spec(old(self)@, id, task, finished),
    {
        self.polling = None;
        if !finished {
            self.tasks.insert(id, task);
        }
        // A poll may have spawned children (an accept loop spawning echo tasks).
        self.drain_spawned();
    }
}

/// Everything that can happen to an executor: the calls its driver and the
/// tasks' wakers make.
pub enum Event<T> {
    Spawn(T),
    QueueSpawn(T),
    Wake(usize),
    NextAction,
    PollDone(usize, T, bool),
}

/// Whether the call behind `e` may be made in state `s`.
pub open spec fn can_apply<T>(s: ExecutorState<T>, e: Event<T>) -> bool {
    match e {
        Event::Spawn(_) => s.next_id < usize::MAX,
        Event::QueueSpawn(_) => true,
        Event::Wake(_) => true,
        Event::NextAction => s.polling is None && s.spawned_fit(),
        Event::PollDone(id, _, _) => s.polling == Some(id) && s.spawned_fit(),
    }
}

/// The state after the call behind `e`.
pub open spec fn apply<T>(s: ExecutorState<T>, e: Event<T>) -> ExecutorState<T> {
    match e {
        Event::Spawn(task) => spawn_spec(s, task),
        Event::QueueSpawn(task) => queue_spawn_spec(s, task),
        Event::Wake(id) => wake_spec(s, id),
        Event::NextAction => next_action_spec(s).0,
        Event::PollDone(id, task, finished) => poll_done_spec(s, id, task, finished),
    }
}

pub(crate) proof fn lemma_adopt_spawned<T>(s: ExecutorState<T>)
    requires
        s.wf(),
        s.spawned_fit(),
    ensures
        s.adopt_spawned().wf(),
        s.adopt_spawned().polling == s.polling,
        s.adopt_spawned().next_id == s.next_id + s.spawned.len(),
        forall|k: usize| #[trigger]
            s.adopt_spawned().tasks.contains_key(k) <==> (s.tasks.contains_key(k) || (s.next_id
                <= k < s.next_id + s.spawned.len())),
        forall|k: usize| #[trigger]
            s.tasks.contains_key(k) ==> s.adopt_spawned().tasks[k] == s.tasks[k],
{
    let a = s.adopt_spawned();
    let fresh = Map::new(
        |k: usize| s.next_id <= k < s.next_id + s.spawned.len(),
        |k: usize| s.spawned[k - s.next_id],
    );
    let lo = s.next_id as usize;
    let hi = (s.next_id + s.spawned.len()) as usize;
    vstd::set_lib::range_set_properties::<usize>(lo, hi);
    assert(fresh.dom() =~= Set::<usize>::range(lo, hi));
    assert(a.tasks.dom() =~= s.tasks.dom().union(fresh.dom()));
}

pub(crate) proof fn lemma_skip_finished_keeps_live<T>(tasks: Map<usize, T>, batch: Seq<usize>, id: usize)
    requires
        tasks.contains_key(id),
        batch.contains(id),
    ensures
        skip_finished(tasks, batch).len() > 0,
{
    lemma_skip_finished(tasks, batch);
    let i = choose|i: int| 0 <= i < batch.len() && batch[i] == id;
    assert(batch[i] == id);
}

/// A task that has finished (its id was handed out before and it is no
/// longer live) stays finished whatever happens next, and is never handed out
/// for polling again.
pub proof fn law_finished_task_stays_finished<T>(s: ExecutorState<T>, e: Event<T>, id: usize)
    requires
        s.wf(),
        can_apply(s, e),
        id < s.next_id,
        !s.is_live(id),
    ensures
        !apply(s, e).is_live(id),
        e is NextAction ==> !(next_action_spec(s).1 is Poll && next_action_spec(s).1->0 == id),
{
    law_calls_keep_state_well_formed(s, e);
    lemma_step_dead(s, e, id);
}

/// Every call keeps the executor's state well formed, and ids only grow.
/// Spawning never overwrites a task: the id it hands out was not in use.
pub proof fn law_calls_keep_state_well_formed<T>(s: ExecutorState<T>, e: Event<T>)
    requires
        s.wf(),
        can_apply(s, e),
    ensures
        apply(s, e).wf(),
        apply(s, e).next_id >= s.next_id,
        e is Spawn ==> !s.is_live(s.next_id as usize),
{
    match e {
        Event::Spawn(task) => {
            let t = spawn_spec(s, task);
            assert(t.tasks.dom() =~= s.tasks.dom().insert(s.next_id as usize));
        },
        Event::QueueSpawn(_) => {},
        Event::Wake(_) => {},
        Event::NextAction => {
            lemma_skip_finished(s.tasks, s.batch);
            let rest = skip_finished(s.tasks, s.batch);
            if rest.len() > 0 {
                assert(s.tasks.remove(rest[0]).dom() =~= s.tasks.dom().remove(rest[0]));
            } else if s.in_turn && s.ready.len() == 0 && !s.tasks.is_empty() {
            } else if s.tasks.is_empty() {
            } else {
                lemma_adopt_spawned(s);
                let a = s.adopt_spawned();
                lemma_skip_finished(a.tasks, a.ready);
                let fresh = skip_finished(a.tasks, a.ready);
                if fresh.len() > 0 {
                    assert(a.tasks.remove(fresh[0]).dom() =~= a.tasks.dom().remove(fresh[0]));
                }
            }
        },
        Event::PollDone(id, task, finished) => {
            let t = ExecutorState {
                tasks: if finished { s.tasks } else { s.tasks.insert(id, task) },
                polling: None,
                ..s
            };
            assert(t.tasks.dom() =~= if finished { s.tasks.dom() } else { s.tasks.dom().insert(id) });
            assert(t.wf());
            lemma_adopt_spawned(t);
        },
    }
}

proof fn lemma_step_dead<T>(s: ExecutorState<T>, e: Event<T>, id: usize)
    requires
        s.wf(),
        can_apply(s, e),
        id < s.next_id,
        !s.is_live(id),
    ensures
        !apply(s, e).is_live(id),
        e is NextAction ==> !(next_action_spec(s).1 is Poll && next_action_spec(s).1->0 == id),
{
    match e {
        Event::NextAction => {
            lemma_skip_finished(s.tasks, s.batch);
            if skip_finished(s.tasks, s.batch).len() == 0 && !(s.in_turn && s.ready.len() == 0
                && !s.tasks.is_empty()) && !s.tasks.is_empty() {
                lemma_adopt_spawned(s);
                let a = s.adopt_spawned();
                lemma_skip_finished(a.tasks, a.ready);
            }
        },
        Event::PollDone(p, task, finished) => {
            let t = ExecutorState {
                tasks: if finished { s.tasks } else { s.tasks.insert(p, task) },
                polling: None,
                ..s
            };
            assert(t.wf());
            lemma_adopt_spawned(t);
        },
        _ => {},
    }
}

/// The executor finishes exactly when no task is left, and blocks only when
/// every remaining task is pending: nothing is left of the turn and nothing
/// has been woken.
pub proof fn law_block_only_when_all_pending<T>(s: ExecutorState<T>)
    requires
        s.wf(),
        s.polling is None,
        s.spawned_fit(),
    ensures
        next_action_spec(s).1 is Finish <==> s.tasks.is_empty(),
        next_action_spec(s).1 is Block ==> {
            &&& !s.tasks.is_empty()
            &&& next_action_spec(s).0.ready.len() == 0
            &&& next_action_spec(s).0.batch.len() == 0
            &&& !next_action_spec(s).0.tasks.is_empty()
        },
        next_action_spec(s).1 is Poll ==> {
            let id = next_action_spec(s).1->0;
            &&& s.tasks.contains_key(id) || s.adopt_spawned().tasks.contains_key(id)
            &&& next_action_spec(s).0.polling == Some(id)
        },
{
    lemma_skip_finished(s.tasks, s.batch);
    if skip_finished(s.tasks, s.batch).len() == 0 && !(s.in_turn && s.ready.len() == 0
        && !s.tasks.is_empty()) && !s.tasks.is_empty() {
        lemma_adopt_spawned(s);
        let a = s.adopt_spawned();
        lemma_skip_finished(a.tasks, a.ready);
        let k = choose|k: usize| s.tasks.contains_key(k);
        assert(a.tasks.contains_key(k));
    }
}

/// The executor never blocks while a live task is waiting to be polled: if
/// a live task's id is in the run queue or in what is left of the current
/// turn, the next action is a poll.
pub proof fn law_woken_task_polled_before_blocking<T>(s: ExecutorState<T>, id: usize)
    requires
        s.wf(),
        s.polling is None,
        s.spawned_fit(),
        s.tasks.contains_key(id),
        s.ready.contains(id) || s.batch.contains(id),
    ensures
        next_action_spec(s).1 is Poll,
{
    if s.batch.contains(id) {
        lemma_skip_finished_keeps_live(s.tasks, s.batch, id);
    } else {
        lemma_skip_finished(s.tasks, s.batch);
        if skip_finished(s.tasks, s.batch).len() == 0 {
            lemma_adopt_spawned(s);
            let a = s.adopt_spawned();
            let j = choose|j: int| 0 <= j < s.ready.len() && s.ready[j] == id;
            assert(a.ready[j] == id);
            lemma_skip_finished_keeps_live(a.tasks, a.ready, id);
        }
    }
}

/// A task is polled only when something asked for it: its id was in the run
/// queue or the current turn's snapshot, or it was just adopted. A pending
/// task that nobody wakes stays parked.
pub proof fn law_only_woken_tasks_are_polled<T>(s: ExecutorState<T>)
    requires
        s.wf(),
        s.polling is None,
        s.spawned_fit(),
    ensures
        next_action_spec(s).1 is Poll ==> {
            let id = next_action_spec(s).1->0;
            ||| s.batch.contains(id)
            ||| s.ready.contains(id)
            ||| s.next_id <= id < s.next_id + s.spawned.len()
        },
{
    lemma_skip_finished(s.tasks, s.batch);
    let rest = skip_finished(s.tasks, s.batch);
    if rest.len() > 0 {
        let k = s.batch.len() - rest.len();
        assert(s.batch[k] == rest[0]);
    } else if !(s.in_turn && s.ready.len() == 0 && !s.tasks.is_empty()) && !s.tasks.is_empty() {
        let a = s.adopt_spawned();
        lemma_skip_finished(a.tasks, a.ready);
        let fresh = skip_finished(a.tasks, a.ready);
        if fresh.len() > 0 {
            let k = a.ready.len() - fresh.len();
            assert(a.ready[k] == fresh[0]);
            if k < s.ready.len() {
                assert(s.ready[k] == fresh[0]);
            }
        }
    }
}

/// Adopting the spawned tasks twice in a row is adopting them once: the
/// second adoption finds nothing queued.
pub proof fn law_adopting_twice_changes_nothing<T>(s: ExecutorState<T>)
    ensures
        s.adopt_spawned().adopt_spawned() == s.adopt_spawned(),
{
    let a = s.adopt_spawned();
    let b = a.adopt_spawned();
    assert(b.tasks =~= a.tasks);
    assert(b.ready =~= a.ready);
    assert(b.spawned =~= a.spawned);
}

/// Reporting back from a poll, finished or pending, adopts every task queued
/// for spawning before the report: the `k` queued tasks get the ids
/// `next_id .. next_id + k` in queue order, those ids join the back of the
/// run queue in the same order, and the queue is emptied. The polled task
/// is dropped if it finished and put back under its id if not; every other
/// task, the current turn and the rest of the run queue are untouched.
pub proof fn law_poll_done_adopts_every_child<T>(s: ExecutorState<T>, id: usize, task: T, finished: bool)
    requires
        s.wf(),
        s.polling == Some(id),
        s.spawned_fit(),
    ensures
        ({
            let r = poll_done_spec(s, id, task, finished);
            let k = s.spawned.len();
            &&& r.next_id == s.next_id + k
            &&& r.spawned.len() == 0
            &&& r.polling is None
            &&& r.batch == s.batch
            &&& r.in_turn == s.in_turn
            &&& r.ready.len() == s.ready.len() + k
            &&& forall|i: int| 0 <= i < s.ready.len() ==> #[trigger] r.ready[i] == s.ready[i]
            &&& forall|i: int|
                0 <= i < k ==> {
                    &&& #[trigger] r.ready[s.ready.len() + i] == (s.next_id + i) as usize
                    &&& r.tasks.contains_key((s.next_id + i) as usize)
                    &&& r.tasks[(s.next_id + i) as usize] == s.spawned[i]
                }
            &&& finished ==> !r.tasks.contains_key(id)
            &&& !finished ==> r.tasks.contains_key(id) && r.tasks[id] == task
            &&& forall|j: usize|
                #[trigger] r.tasks.contains_key(j) && j != id && !(s.next_id <= j < s.next_id + k)
                    ==> s.tasks.contains_key(j) && r.tasks[j] == s.tasks[j]
            &&& forall|j: usize| #[trigger] s.tasks.contains_key(j) ==> r.tasks.contains_key(j) && r.tasks[j] == s.tasks[j]
        }),
{
    let m = ExecutorState {
        tasks: if finished { s.tasks } else { s.tasks.insert(id, task) },
        polling: None,
        ..s
    };
    assert(m.tasks.dom() =~= if finished { s.tasks.dom() } else { s.tasks.dom().insert(id) });
    assert(m.wf());
    lemma_adopt_spawned(m);
    let r = poll_done_spec(s, id, task, finished);
    assert forall|i: int| 0 <= i < s.spawned.len() implies {
        &&& #[trigger] r.ready[s.ready.len() + i] == (s.next_id + i) as usize
        &&& r.tasks.contains_key((s.next_id + i) as usize)
        &&& r.tasks[(s.next_id + i) as usize] == s.spawned[i]
    } by {
        let j = (s.next_id + i) as usize;
        assert(!m.tasks.contains_key(j));
        assert(j - s.next_id == i);
    }
}

/// A wake appends exactly its id to the back of the run queue, whatever the
/// state and whether or not that id is queued already; nothing else changes.
pub proof fn law_wake_appends_its_id<T>(s: ExecutorState<T>, id: usize)
    ensures
        wake_spec(s, id).ready.len() == s.ready.len() + 1,
        wake_spec(s, id).ready.last() == id,
        forall|i: int| 0 <= i < s.ready.len() ==> #[trigger] wake_spec(s, id).ready[i] == s.ready[i],
        wake_spec(s, id).tasks == s.tasks,
        wake_spec(s, id).batch == s.batch,
        wake_spec(s, id).in_turn == s.in_turn,
        wake_spec(s, id).spawned == s.spawned,
        wake_spec(s, id).polling == s.polling,
        wake_spec(s, id).next_id == s.next_id,
{
}

/// A woken live task is polled before the executor can block again, however
/// many other wakes come with it: after a wake of `id` (and then any further
/// wakes), a task still live and not yet polled is never left behind by a
/// `Block` answer.
pub proof fn law_woken_task_is_not_dropped<T>(s: ExecutorState<T>, id: usize, others: Seq<usize>)
    requires
        s.wf(),
        s.polling is None,
        s.spawned_fit(),
        s.tasks.contains_key(id),
    ensures
        ({
            let woken = wake_all(wake_spec(s, id), others);
            &&& woken.ready.contains(id)
            &&& !(next_action_spec(woken).1 is Block)
        }),
{
    assert(wake_spec(s, id).ready[s.ready.len() as int] == id);
    lemma_wake_all(wake_spec(s, id), others, id);
    let woken = wake_all(wake_spec(s, id), others);
    law_woken_task_polled_before_blocking(woken, id);
}

/// Waking the ids `ids`, one after the other.
pub open spec fn wake_all<T>(s: ExecutorState<T>, ids: Seq<usize>) -> ExecutorState<T>
    decreases ids.len(),
{
    if ids.len() == 0 {
        s
    } else {
        wake_spec(wake_all(s, ids.drop_last()), ids.last())
    }
}

proof fn lemma_wake_all<T>(s: ExecutorState<T>, ids: Seq<usize>, id: usize)
    requires
        s.ready.contains(id),
    ensures
        wake_all(s, ids).ready.contains(id),
        wake_all(s, ids).tasks == s.tasks,
        wake_all(s, ids).batch == s.batch,
        wake_all(s, ids).in_turn == s.in_turn,
        wake_all(s, ids).spawned == s.spawned,
        wake_all(s, ids).polling == s.polling,
        wake_all(s, ids).next_id == s.next_id,
        s.wf() ==> wake_all(s, ids).wf(),
    decreases ids.len(),
{
    if ids.len() > 0 {
        lemma_wake_all(s, ids.drop_last(), id);
        let m = wake_all(s, ids.drop_last());
        let j = choose|j: int| 0 <= j < m.ready.len() && m.ready[j] == id;
        assert(wake_spec(m, ids.last()).ready[j] == id);
    }
}

/// Spawning at the top level puts the task under the next id, queues that id
/// at the back of the run queue, and moves the next id on by one.
pub proof fn law_spawn_queues_the_new_task<T>(s: ExecutorState<T>, task: T)
    requires
        s.wf(),
        s.next_id < usize::MAX,
    ensures
        ({
            let r = spawn_spec(s, task);
            let n = s.next_id as usize;
            &&& !s.tasks.contains_key(n)
            &&& r.tasks.contains_key(n) && r.tasks[n] == task
            &&& forall|j: usize| j != n ==> #[trigger] r.tasks.contains_key(j) == s.tasks.contains_key(j)
            &&& r.ready.len() == s.ready.len() + 1 && r.ready.last() == n
            &&& forall|i: int| 0 <= i < s.ready.len() ==> #[trigger] r.ready[i] == s.ready[i]
            &&& r.next_id == s.next_id + 1
            &&& r.spawned == s.spawned && r.batch == s.batch && r.polling == s.polling
        }),
{
}

/// Queueing a task for spawning appends it to the spawn queue and changes
/// nothing else; it gets no id until it is adopted.
pub proof fn law_queue_spawn_appends<T>(s: ExecutorState<T>, task: T)
    ensures
        queue_spawn_spec(s, task).spawned.len() == s.spawned.len() + 1,
        queue_spawn_spec(s, task).spawned.last() == task,
        forall|i: int| 0 <= i < s.spawned.len() ==> #[trigger] queue_spawn_spec(s, task).spawned[i] == s.spawned[i],
        queue_spawn_spec(s, task).tasks == s.tasks,
        queue_spawn_spec(s, task).ready == s.ready,
        queue_spawn_spec(s, task).next_id == s.next_id,
{
}

/// A new executor has no task, nothing queued and no task handed out, and
/// gives its first task id 0.
pub proof fn law_new_executor_is_empty<T>()
    ensures
        empty_executor::<T>().tasks.is_empty(),
        empty_executor::<T>().ready.len() == 0,
        empty_executor::<T>().batch.len() == 0,
        empty_executor::<T>().spawned.len() == 0,
        empty_executor::<T>().polling is None,
        empty_executor::<T>().next_id == 0,
        !empty_executor::<T>().in_turn,
{
}

/// Tasks are polled in the order they were queued: while the current turn
/// has a live task left, the next poll is of the first live id in it, every
/// id before it belongs to a finished task and is passed over, and the turn
/// goes on after it. The handed-out task leaves the table, the run queue is
/// untouched.
pub proof fn law_polls_follow_queue_order<T>(s: ExecutorState<T>, j: int)
    requires
        s.wf(),
        s.polling is None,
        0 <= j < s.batch.len(),
        s.tasks.contains_key(s.batch[j]),
        forall|i: int| 0 <= i < j ==> !s.tasks.contains_key(#[trigger] s.batch[i]),
    ensures
        ({
            let (r, a) = next_action_spec(s);
            &&& a == Action::Poll(s.batch[j], s.tasks[s.batch[j]])
            &&& r.batch == s.batch.skip(j + 1)
            &&& r.ready == s.ready
            &&& r.tasks == s.tasks.remove(s.batch[j])
            &&& r.polling == Some(s.batch[j])
            &&& r.next_id == s.next_id
        }),
{
    lemma_skip_finished(s.tasks, s.batch);
    let rest = skip_finished(s.tasks, s.batch);
    let off = s.batch.len() - rest.len();
    assert(rest.len() > 0) by {
        if rest.len() == 0 {
            assert(!s.tasks.contains_key(s.batch[j]));
        }
    }
    assert(rest[0] == s.batch[off]);
    if off < j {
        assert(!s.tasks.contains_key(s.batch[off]));
    }
    if off > j {
        assert(!s.tasks.contains_key(s.batch[j]));
    }
    assert(rest.drop_first() =~= s.batch.skip(j + 1));
}

/// A new turn takes the whole run queue, with the tasks adopted just before
/// it at the back, as its snapshot and leaves the run queue empty: when the
/// current turn has no live task left and tasks remain, what is polled next
/// is the first live id of that snapshot (the ids before it being of
/// finished tasks), and a later wake waits for the turn after.
pub proof fn law_turn_snapshots_the_run_queue<T>(s: ExecutorState<T>, j: int)
    requires
        s.wf(),
        s.polling is None,
        s.spawned_fit(),
        forall|i: int| 0 <= i < s.batch.len() ==> !s.tasks.contains_key(#[trigger] s.batch[i]),
        !s.in_turn || s.ready.len() > 0,
        0 <= j < s.ready.len(),
        s.tasks.contains_key(s.ready[j]),
        forall|i: int| 0 <= i < j ==> !s.tasks.contains_key(#[trigger] s.ready[i]) && s.ready[i] < s.next_id,
    ensures
        ({
            let (r, a) = next_action_spec(s);
            &&& a == Action::Poll(s.ready[j], s.tasks[s.ready[j]])
            &&& r.ready.len() == 0
            &&& r.batch == s.adopt_spawned().ready.skip(j + 1)
            &&& r.in_turn
        }),
{
    lemma_skip_finished(s.tasks, s.batch);
    assert(skip_finished(s.tasks, s.batch).len() == 0) by {
        let rest = skip_finished(s.tasks, s.batch);
        if rest.len() > 0 {
            assert(rest[0] == s.batch[s.batch.len() - rest.len()]);
        }
    }
    lemma_adopt_spawned(s);
    let a = s.adopt_spawned();
    assert(!s.tasks.is_empty()) by {
        assert(s.tasks.contains_key(s.ready[j]));
    }
    assert forall|i: int| 0 <= i <= j implies #[trigger] a.ready[i] == s.ready[i] by {}
    assert forall|i: int| 0 <= i < j implies !a.tasks.contains_key(#[trigger] a.ready[i]) by {
        assert(a.ready[i] == s.ready[i]);
    }
    lemma_skip_finished(a.tasks, a.ready);
    let fresh = skip_finished(a.tasks, a.ready);
    let off = a.ready.len() - fresh.len();
    assert(a.tasks.contains_key(a.ready[j]));
    assert(fresh.len() > 0) by {
        if fresh.len() == 0 {
            assert(!a.tasks.contains_key(a.ready[j]));
        }
    }
    assert(fresh[0] == a.ready[off]);
    if off < j {
        assert(!a.tasks.contains_key(a.ready[off]));
    }
    if off > j {
        assert(!a.tasks.contains_key(a.ready[j]));
    }
    assert(fresh.drop_first() =~= a.ready.skip(j + 1));
}

/// What polling a `Yield` asks for.
#[derive(PartialEq, Eq, Structural, Clone, Copy, Debug)]
pub enum YieldPoll {
    /// The future is done.
    Ready,
    /// The future is pending and its task must be woken right away, so that
    /// it runs again on the next turn.
    Requeue,
}

/// A future that yields once: the first poll re-schedules its task and is
/// pending, the next is ready. A CPU-bound task awaits it to hand control
/// back to the executor.
pub struct Yield {
    yielded: bool,
}

impl View for Yield {
    type V = bool;

    /// Whether the future has already yielded.
    closed spec fn view(&self) -> bool {
        self.yielded
    }
}

pub fn yield_now() -> (y: Yield)
    ensures
        !y@,
{
    Yield { yielded: false }
}

/// One poll of a `Yield` that has (or has not) yielded already: the answer
/// and whether it has yielded afterwards.
pub open spec fn yield_step(yielded: bool) -> (YieldPoll, bool) {
    if yielded {
        (YieldPoll::Ready, true)
    } else {
        (YieldPoll::Requeue, true)
    }
}

impl Yield {
    pub fn poll(&mut self) -> (r: YieldPoll)
        ensures
            (r, final(self)@) == yield_step(old(self)@),
    {
        if self.yielded {
            YieldPoll::Ready
        } else {
            self.yielded = true;
            YieldPoll::Requeue
        }
    }
}

/// A fresh `Yield` is pending exactly once: its first poll re-schedules the
/// task, and from then on every poll is ready.
pub proof fn law_yield_is_pending_once(y: Yield)
    requires
        !y@,
    ensures
        yield_step(y@).0 == YieldPoll::Requeue,
        yield_step(yield_step(y@).1).0 == YieldPoll::Ready,
        forall|yielded: bool| yielded ==> #[trigger] yield_step(yielded) == (YieldPoll::Ready, true),
{
}

} // verus!
