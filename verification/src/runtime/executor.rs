use std::collections::HashMap;
use vstd::prelude::*;

verus! {

broadcast use vstd::std_specs::hash::group_hash_axioms;

/// What the run loop does next.
#[derive(Debug, Clone, Copy, PartialEq, Eq, Structural)]
pub enum RunStep {
    /// Nothing is ready and no task is left: the loop ends.
    Exit,
    /// Nothing is ready but tasks are waiting: sleep until a waker runs.
    Park,
    /// Poll each ready task.
    Poll,
}

/// The tasks of a single-threaded executor, each under the id it was given when spawned.
pub struct Executor<T> {
    tasks: HashMap<u64, T>,
    next_id: u64,
}

/// A change to the task table, as the executor's own operations make it.
pub enum TableOp<T> {
    /// `spawn(task)`: the task goes in under the next id, and the next id goes up by one.
    Spawn(T),
    /// `take(id)`: the task under `id`, if any, comes out.
    Take(u64),
    /// `restore(id, task)`: the task goes back in under `id`.
    Restore(u64, T),
}

/// The task table and next id after one operation; these are the changes that the
/// contracts of `spawn`, `take` and `restore` state.
pub open spec fn apply_op<T>(m: Map<u64, T>, next: int, op: TableOp<T>) -> (Map<u64, T>, int) {
    match op {
        TableOp::Spawn(t) => (m.insert(next as u64, t), next + 1),
        TableOp::Take(id) => (m.remove(id), next),
        TableOp::Restore(id, t) => (m.insert(id, t), next),
    }
}

/// The task table and next id after a sequence of operations, in order.
pub open spec fn apply_ops<T>(m: Map<u64, T>, next: int, ops: Seq<TableOp<T>>) -> (
    Map<u64, T>,
    int,
)
    decreases ops.len(),
{
    if ops.len() == 0 {
        (m, next)
    } else {
        let (m1, n1) = apply_ops(m, next, ops.drop_last());
        apply_op(m1, n1, ops.last())
    }
}

/// The next id never goes down.
proof fn lemma_next_grows<T>(m: Map<u64, T>, next: int, ops: Seq<TableOp<T>>)
    ensures
        apply_ops(m, next, ops).1 >= next,
    decreases ops.len(),
{
    if ops.len() > 0 {
        lemma_next_grows(m, next, ops.drop_last());
    }
}

/// A finished task is never polled again. Once a task's id is out of the table (it was taken
/// for polling and returned `Ready`, so it was not put back), no spawn reuses the id, since
/// ids below the next id are never given out again; so as long as nothing puts a task back
/// under that id, a later `take` of it (for a stale wake) finds nothing to poll.
pub proof fn lemma_finished_task_stays_gone<T>(
    m: Map<u64, T>,
    next: int,
    ops: Seq<TableOp<T>>,
    id: u64,
)
    requires
        !m.contains_key(id),
        id < next,
        apply_ops(m, next, ops).1 <= u64::MAX,
        forall|k: int| 0 <= k < ops.len() ==> !(#[trigger] ops[k] matches TableOp::Restore(j, _) && j == id),
    ensures
        !apply_ops(m, next, ops).0.contains_key(id),
    decreases ops.len(),
{
    if ops.len() > 0 {
        let pre = ops.drop_last();
        assert forall|k: int| 0 <= k < pre.len() implies !(#[trigger] pre[k] matches TableOp::Restore(j, _) && j == id) by {
            assert(pre[k] == ops[k]);
        }
        let (m1, n1) = apply_ops(m, next, pre);
        assert(apply_ops(m, next, ops).1 >= n1);
        lemma_finished_task_stays_gone(m, next, pre, id);
        lemma_next_grows(m, next, pre);
        assert(ops[ops.len() - 1] == ops.last());
    }
}

/// A task that was polled, returned `Pending` and was put back stays in the table, unchanged,
/// until its id is taken again: spawns never use its id and other takes and restores do not
/// touch it. So when a wake brings its id back to the ready queue, `take` hands out this
/// very task and it is polled again.
pub proof fn lemma_pending_task_kept<T>(
    m: Map<u64, T>,
    next: int,
    ops: Seq<TableOp<T>>,
    id: u64,
    task: T,
)
    requires
        id < next,
        apply_ops(m.insert(id, task), next, ops).1 <= u64::MAX,
        forall|k: int| 0 <= k < ops.len() ==> !(#[trigger] ops[k] matches TableOp::Take(j) && j == id),
        forall|k: int| 0 <= k < ops.len() ==> !(#[trigger] ops[k] matches TableOp::Restore(j, _) && j == id),
    ensures
        apply_ops(m.insert(id, task), next, ops).0.contains_key(id),
        apply_ops(m.insert(id, task), next, ops).0[id] == task,
    decreases ops.len(),
{
    if ops.len() > 0 {
        let pre = ops.drop_last();
        assert forall|k: int| 0 <= k < pre.len() implies !(#[trigger] pre[k] matches TableOp::Take(j) && j == id) by {
            assert(pre[k] == ops[k]);
        }
        assert forall|k: int| 0 <= k < pre.len() implies !(#[trigger] pre[k] matches TableOp::Restore(j, _) && j == id) by {
            assert(pre[k] == ops[k]);
        }
        let (m1, n1) = apply_ops(m.insert(id, task), next, pre);
        assert(apply_ops(m.insert(id, task), next, ops).1 >= n1);
        lemma_pending_task_kept(m, next, pre, id, task);
        lemma_next_grows(m.insert(id, task), next, pre);
        assert(ops[ops.len() - 1] == ops.last());
    }
}

impl<T> Executor<T> {
    #[verifier::type_invariant]
    closed spec fn wf(self) -> bool {
        forall|id: u64| #[trigger] self.tasks@.contains_key(id) ==> id < self.next_id
    }

    /// The live tasks by id.
    pub closed spec fn tasks(&self) -> Map<u64, T> {
        self.tasks@
    }

    /// The id the next spawned task gets.
    pub closed spec fn next_id_spec(&self) -> u64 {
        self.next_id
    }

    /// An executor with no tasks, giving out ids from 0.
    pub fn new() -> (e: Executor<T>)
        ensures
            e.tasks() == Map::<u64, T>::empty(),
            e.next_id_spec() == 0,
    {
        Executor { tasks: HashMap::new(), next_id: 0 }
    }

    /// The id the next spawned task gets.
    pub fn next_id(&self) -> (id: u64)
        ensures
            id == self.next_id_spec(),
            forall|k: u64| #[trigger] self.tasks().contains_key(k) ==> k < id,
    {
        proof {
            use_type_invariant(self);
        }
        self.next_id
    }

    /// The number of live tasks.
    pub fn len(&self) -> (n: usize)
        ensures
            n == self.tasks().len(),
    {
        self.tasks.len()
    }

    /// Whether no task is live.
    pub fn is_empty(&self) -> (b: bool)
        ensures
            b == (self.tasks().len() == 0),
    {
        self.len() == 0
    }

    /// Adds a task under the next id, which it returns; the caller queues that id as ready.
    pub fn spawn(&mut self, task: T) -> (id: u64)
        requires
            old(self).next_id_spec() < u64::MAX,
        ensures
            id == old(self).next_id_spec(),
            !old(self).tasks().contains_key(id),
            final(self).tasks() == old(self).tasks().insert(id, task),
            final(self).next_id_spec() == id + 1,
    {
        proof {
            use_type_invariant(&*self);
        }
        let id = self.next_id;
        let mut tasks: HashMap<u64, T> = HashMap::new();
        std::mem::swap(&mut tasks, &mut self.tasks);
        tasks.insert(id, task);
        *self = Executor { tasks, next_id: id + 1 };
        id
    }

    /// Removes the task with id `id` and hands it out, if it is live.
    pub fn take(&mut self, id: u64) -> (r: Option<T>)
        ensures
            match r {
                Some(t) => old(self).tasks().contains_key(id) && t == old(self).tasks()[id],
                None => !old(self).tasks().contains_key(id),
            },
            final(self).tasks() == old(self).tasks().remove(id),
            final(self).next_id_spec() == old(self).next_id_spec(),
    {
        proof {
            use_type_invariant(&*self);
        }
        let next_id = self.next_id;
        let mut tasks: HashMap<u64, T> = HashMap::new();
        std::mem::swap(&mut tasks, &mut self.tasks);
        let r = tasks.remove(&id);
        *self = Executor { tasks, next_id };
        r
    }

    /// Puts back a task that was taken out under id `id` and is not finished.
    pub fn restore(&mut self, id: u64, task: T)
        requires
            !old(self).tasks().contains_key(id),
            id < old(self).next_id_spec(),
        ensures
            final(self).tasks() == old(self).tasks().insert(id, task),
            final(self).next_id_spec() == old(self).next_id_spec(),
    {
        proof {
            use_type_invariant(&*self);
        }
        let next_id = self.next_id;
        let mut tasks: HashMap<u64, T> = HashMap::new();
        std::mem::swap(&mut tasks, &mut self.tasks);
        tasks.insert(id, task);
        *self = Executor { tasks, next_id };
    }

    /// Settles a task that was taken out under `id` and just polled: a finished task is
    /// dropped and its id stays out of the table for good (see
    /// `lemma_finished_task_stays_gone`); an unfinished one goes back under its id to wait for
    /// its next wake (see `lemma_pending_task_kept`).
    pub fn after_poll(&mut self, id: u64, task: T, finished: bool)
        requires
            !old(self).tasks().contains_key(id),
            id < old(self).next_id_spec(),
        ensures
            final(self).tasks() == (if finished {
                old(self).tasks()
            } else {
                old(self).tasks().insert(id, task)
            }),
            final(self).next_id_spec() == old(self).next_id_spec(),
            finished ==> !final(self).tasks().contains_key(id),
            !finished ==> final(self).tasks().contains_key(id) && final(self).tasks()[id] == task,
    {
        if !finished {
            self.restore(id, task);
        }
    }

    /// What the run loop does with the ids that were drained from the ready queue.
    pub fn next_step(&self, ready: &Vec<u64>) -> (s: RunStep)
        ensures
            s == (if ready@.len() > 0 {
                RunStep::Poll
            } else if self.tasks().len() == 0 {
                RunStep::Exit
            } else {
                RunStep::Park
            }),
    {
        if ready.len() == 0 && self.is_empty() {
            RunStep::Exit
        } else if ready.len() == 0 {
            RunStep::Park
        } else {
            RunStep::Poll
        }
    }
}

} // verus!
