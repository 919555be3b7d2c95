//! The ready queue and its stride scheduler.
//!
//! The queue owns the ready tasks. `fetch` always hands out the task with
//! the globally smallest stride, ties broken in favour of the task enqueued
//! earliest, and advances the winner's stride by `BIG_STRIDE` divided by its
//! priority; over many rounds two tasks therefore receive dispatch counts
//! proportional to their priorities.

use vstd::prelude::*;
use crate::task::TaskControlBlock;
use crate::task::TaskControlBlockInner;

verus! {

/// The stride quantum: what one dispatch costs a task of priority 1. Large
/// against realistic priorities, so rounding in the division stays
/// negligible.
pub const BIG_STRIDE: usize = 0x233333;

/// The index `fetch` selects: the first position holding the minimal
/// stride, which is the earliest-enqueued task among those of minimal
/// stride.
pub open spec fn first_min_stride_idx(q: Seq<TaskControlBlock>) -> int
    decreases q.len(),
{
    if q.len() <= 1 {
        0
    } else {
        let m = first_min_stride_idx(q.drop_last());
        if q.last().inner.stride < q[m].inner.stride {
            q.len() - 1
        } else {
            m
        }
    }
}

/// The selected index is in range, holds a minimal stride, and every
/// earlier task's stride is strictly larger.
pub proof fn lemma_first_min_props(q: Seq<TaskControlBlock>)
    requires
        q.len() > 0,
    ensures
        ({
            let m = first_min_stride_idx(q);
            &&& 0 <= m < q.len()
            &&& forall|j: int|
                0 <= j < q.len() ==> q[m].inner.stride <= (#[trigger] q[j]).inner.stride
            &&& forall|j: int| 0 <= j < m ==> (#[trigger] q[j]).inner.stride > q[m].inner.stride
        }),
    decreases q.len(),
{
    if q.len() > 1 {
        lemma_first_min_props(q.drop_last());
        assert forall|j: int| 0 <= j < q.len() - 1 implies q.drop_last()[j] == q[j] by {}
    }
}

/// Every task a well-formed queue holds is Ready — never a zombie. Since
/// `fetch` only hands out queued tasks and `add` admits only Ready ones, an
/// exited task is permanently excluded from scheduling.
pub proof fn lemma_no_zombie_is_scheduled(m: TaskManager)
    requires
        m.wf(),
    ensures
        forall|i: int|
            0 <= i < m.ready_queue@.len() ==> !((#[trigger] m.ready_queue@[i]).inner.task_status
                is Zombie),
{
}

/// The ready queue: owns every Ready task awaiting dispatch, each process
/// id at most once, in enqueue order.
pub struct TaskManager {
    /// The queued tasks, earliest first.
    pub ready_queue: Vec<TaskControlBlock>,
}

impl TaskManager {
    /// The queue's invariant: every queued task well formed and Ready, and
    /// no process id twice.
    pub open spec fn wf(self) -> bool {
        &&& forall|i: int|
            0 <= i < self.ready_queue@.len() ==> (#[trigger] self.ready_queue@[i]).wf()
        &&& forall|i: int|
            0 <= i < self.ready_queue@.len() ==> (#[trigger] self.ready_queue@[i]).inner.task_status
                is Ready
        &&& forall|i: int, j: int|
            0 <= i < self.ready_queue@.len() && 0 <= j < self.ready_queue@.len() && i != j ==> (
            #[trigger] self.ready_queue@[i]).pid != (#[trigger] self.ready_queue@[j]).pid
    }

    /// An empty ready queue.
    pub fn new() -> (r: TaskManager)
        ensures
            r.wf(),
            r.ready_queue@.len() == 0,
    {
        TaskManager { ready_queue: Vec::new() }
    }

    /// Appends a task to the tail of the queue. Only a Ready task may
    /// enter, and a task must not appear twice.
    pub fn add(&mut self, task: TaskControlBlock)
        requires
            old(self).wf(),
            task.wf(),
            task.inner.task_status is Ready,
            forall|i: int|
                0 <= i < old(self).ready_queue@.len() ==> (#[trigger] old(
                    self,
                ).ready_queue@[i]).pid != task.pid,
        ensures
            final(self).wf(),
            final(self).ready_queue@ == old(self).ready_queue@.push(task),
    {
        self.ready_queue.push(task);
    }

    /// Takes the next task to run: none when the queue is empty, otherwise
    /// the task with the globally smallest stride, ties broken in favour of
    /// the earliest enqueued. The winner leaves the queue — the others keep
    /// their relative order — and its stride advances by `BIG_STRIDE`
    /// divided by its priority; a priority of at least 1 makes that
    /// division safe.
    #[verifier::loop_isolation(false)]
    pub fn fetch(&mut self) -> (r: Option<TaskControlBlock>)
        requires
            old(self).wf(),
            forall|i: int|
                0 <= i < old(self).ready_queue@.len() ==> (#[trigger] old(
                    self,
                ).ready_queue@[i]).inner.stride <= usize::MAX - BIG_STRIDE,
        ensures
            final(self).wf(),
            old(self).ready_queue@.len() == 0 ==> r is None && *final(self) == *old(self),
            old(self).ready_queue@.len() > 0 ==> ({
                let q0 = old(self).ready_queue@;
                let m = first_min_stride_idx(q0);
                &&& 0 <= m < q0.len()
                // the winner holds the globally smallest stride ...
                &&& forall|j: int|
                    0 <= j < q0.len() ==> q0[m].inner.stride <= (#[trigger] q0[j]).inner.stride
                // ... and, among equals, was enqueued earliest
                &&& forall|j: int| 0 <= j < m ==> (#[trigger] q0[j]).inner.stride > q0[m].inner.stride
                &&& r matches Some(t) && ({
                    &&& t.inner.stride == q0[m].inner.stride + BIG_STRIDE / (
                    q0[m].inner.priority as usize)
                    &&& t == (TaskControlBlock {
                        inner: TaskControlBlockInner { stride: t.inner.stride, ..q0[m].inner },
                        ..q0[m]
                    })
                    // the winner is gone from the queue until re-added
                    &&& forall|j: int|
                        0 <= j < final(self).ready_queue@.len() ==> (#[trigger] final(self).ready_queue@[j]).pid != t.pid
                })
                &&& final(self).ready_queue@ == q0.remove(m)
            }),
    {
        let n = self.ready_queue.len();
        if n == 0 {
            return None;
        }
        let ghost q0 = self.ready_queue@;
        let mut best: usize = 0;
        let mut i: usize = 1;
        while i < n
            invariant
                0 <= best < i <= n,
                forall|j: int|
                    0 <= j < i ==> self.ready_queue@[best as int].inner.stride <= (
                    #[trigger] self.ready_queue@[j]).inner.stride,
                forall|j: int|
                    0 <= j < best ==> (#[trigger] self.ready_queue@[j]).inner.stride
                        > self.ready_queue@[best as int].inner.stride,
            decreases n - i,
        {
            if self.ready_queue[i].inner.stride < self.ready_queue[best].inner.stride {
                best = i;
            }
            i += 1;
        }
        proof {
            lemma_first_min_props(q0);
            let m = first_min_stride_idx(q0);
            if best < m {
                assert(q0[best as int].inner.stride > q0[m].inner.stride);
                assert(q0[m].inner.stride >= q0[best as int].inner.stride);
                assert(false);
            }
            if m < best {
                assert(q0[m].inner.stride > q0[best as int].inner.stride);
                assert(q0[best as int].inner.stride >= q0[m].inner.stride);
                assert(false);
            }
            assert(best as int == m);
        }
        let mut task = self.ready_queue.remove(best);
        let prio = task.inner.priority;
        proof {
            assert(task.wf());
            assert(prio >= 1);
            assert(BIG_STRIDE as int / (prio as usize) as int <= BIG_STRIDE as int)
                by (nonlinear_arith)
                requires
                    prio as usize >= 1,
            ;
        }
        let inc = BIG_STRIDE / (prio as usize);
        task.inner.stride = task.inner.stride + inc;
        proof {
            assert forall|i2: int, j2: int|
                0 <= i2 < self.ready_queue@.len() && 0 <= j2 < self.ready_queue@.len() && i2 != j2
                implies (#[trigger] self.ready_queue@[i2]).pid != (
            #[trigger] self.ready_queue@[j2]).pid by {
                let b = best as int;
                let oi = if i2 < b {
                    i2
                } else {
                    i2 + 1
                };
                let oj = if j2 < b {
                    j2
                } else {
                    j2 + 1
                };
                assert(self.ready_queue@[i2] == q0[oi]);
                assert(self.ready_queue@[j2] == q0[oj]);
            }
        }
        Some(task)
    }
}

} // verus!
