use vstd::prelude::*;
use std::collections::HashMap;

verus! {

broadcast use vstd::std_specs::hash::group_hash_axioms;

/// A readiness-driven task list: tasks by id, and the ids to poll next.
pub struct TaskList<T> {
    pub pending_tasks: HashMap<usize, T>,
    pub ready_tasks: Vec<usize>,
}

impl<T> TaskList<T> {
    pub fn new() -> (l: TaskList<T>)
        ensures
            l.pending_tasks@ == Map::<usize, T>::empty(),
            l.ready_tasks@ == Seq::<usize>::empty(),
    {
        TaskList { pending_tasks: HashMap::new(), ready_tasks: Vec::new() }
    }

    /// Adds a task under `id` (replacing any task there) and marks it ready,
    /// so that it is polled once before it waits for anything.
    pub fn add(&mut self, id: usize, task: T)
        ensures
            final(self).pending_tasks@ == old(self).pending_tasks@.insert(id, task),
            final(self).ready_tasks@ == old(self).ready_tasks@.push(id),
    {
        self.pending_tasks.insert(id, task);
        self.ready_tasks.push(id);
    }
}

} // verus!
