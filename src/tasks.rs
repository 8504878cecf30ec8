use crate::state::LeveragePosition;
use vstd::prelude::*;

verus! {

#[derive(Clone, Copy, Debug, PartialEq, Eq)]
pub enum TaskType {
    ProcessLogic,
    FetchPrice,
    ProtocolBalanceUpdate,
    CheckLeveragePositions,
    CloseLeveragePosition(LeveragePosition),
}

/// A unit of deferred work, ready at `execute_at` (nanoseconds).
#[derive(Clone, Copy, Debug, PartialEq, Eq)]
pub struct Task {
    pub execute_at: u64,
    pub task_type: TaskType,
}

/// Tasks waiting to run, in the order they were scheduled.
pub struct TaskQueue {
    pub tasks: Vec<Task>,
}

impl TaskQueue {
    pub fn new() -> (r: TaskQueue)
        ensures
            r.tasks@.len() == 0,
    {
        TaskQueue { tasks: Vec::new() }
    }

    pub fn schedule_at(&mut self, execute_at: u64, task_type: TaskType)
        ensures
            final(self).tasks@ == old(self).tasks@.push(Task { execute_at, task_type }),
    {
        self.tasks.push(Task { execute_at, task_type });
    }

    /// Removes and returns the task that is due first, if it is due at `now`; of tasks
    /// due at the same time, the one scheduled first.
    pub fn pop_if_ready(&mut self, now: u64) -> (r: Option<Task>)
        ensures
            r is None ==> final(self).tasks@ == old(self).tasks@ && forall|k: int|
                0 <= k < old(self).tasks@.len() ==> #[trigger] old(self).tasks@[k].execute_at > now,
            r matches Some(t) ==> exists|i: int|
                {
                    &&& 0 <= i < old(self).tasks@.len()
                    &&& t == old(self).tasks@[i]
                    &&& t.execute_at <= now
                    &&& final(self).tasks@ == old(self).tasks@.remove(i)
                    &&& forall|k: int|
                        0 <= k < old(self).tasks@.len() ==> t.execute_at <= #[trigger] old(
                            self,
                        ).tasks@[k].execute_at
                    &&& forall|k: int| 0 <= k < i ==> t.execute_at < #[trigger] old(self).tasks@[k].execute_at
                },
    {
        if self.tasks.len() == 0 {
            return None;
        }
        let mut best: usize = 0;
        let mut i: usize = 1;
        while i < self.tasks.len()
            invariant
                1 <= i <= self.tasks@.len(),
                best < i,
                self.tasks@ == old(self).tasks@,
                forall|k: int| 0 <= k < i ==> self.tasks@[best as int].execute_at <= #[trigger] self.tasks@[k].execute_at,
                forall|k: int| 0 <= k < best ==> self.tasks@[best as int].execute_at < #[trigger] self.tasks@[k].execute_at,
            decreases self.tasks@.len() - i,
        {
            if self.tasks[i].execute_at < self.tasks[best].execute_at {
                best = i;
            }
            i = i + 1;
        }
        if self.tasks[best].execute_at > now {
            return None;
        }
        let t = self.tasks.remove(best);
        Some(t)
    }

    /// The queued tasks, in the order they were scheduled.
    pub fn get_task_vec(&self) -> (r: Vec<Task>)
        ensures
            r@ == self.tasks@,
    {
        let mut out: Vec<Task> = Vec::new();
        let mut i: usize = 0;
        while i < self.tasks.len()
            invariant
                i <= self.tasks@.len(),
                out@ == self.tasks@.take(i as int),
            decreases self.tasks@.len() - i,
        {
            out.push(self.tasks[i]);
            proof {
                assert(out@ =~= self.tasks@.take(i as int + 1));
            }
            i = i + 1;
        }
        proof {
            assert(self.tasks@.take(i as int) =~= self.tasks@);
        }
        out
    }
}

} // verus!
