//! Wakers: they say which task has something to do.
use vstd::prelude::*;

verus! {

/// Wakes one task. It can be copied and kept.
#[derive(Clone, Copy, PartialEq, Eq, Structural, Debug)]
pub struct Waker {
    pub task: usize,
}

/// Whether a task has something to do.
#[derive(Clone, Copy, PartialEq, Eq, Structural, Debug)]
pub struct TaskWaker {
    pub task: usize,
    pub ready: bool,
}

impl TaskWaker {
    /// The flag of a new task: it is ready, so that it is polled a first time.
    pub fn new(task: usize) -> (r: TaskWaker)
        ensures
            r == (TaskWaker { task, ready: true }),
    {
        TaskWaker { task, ready: true }
    }

    /// Whether the task has something to do.
    pub fn is_ready(&self) -> (r: bool)
        ensures
            r == self.ready,
    {
        self.ready
    }

    /// Says that the task has nothing to do, before it is polled.
    pub fn clear(&mut self)
        ensures
            *final(self) == (TaskWaker { ready: false, ..*old(self) }),
    {
        self.ready = false;
    }

    /// A waker of the task.
    pub fn waker(&self) -> (r: Waker)
        ensures
            r == (Waker { task: self.task }),
    {
        Waker { task: self.task }
    }
}

impl Waker {
    /// A flag after the waker was used.
    pub open spec fn woken(self, t: TaskWaker) -> TaskWaker {
        TaskWaker { ready: t.ready || t.task == self.task, ..t }
    }

    /// Says that the task has something to do.
    pub fn wake(self, t: &mut TaskWaker)
        ensures
            *final(t) == self.woken(*old(t)),
    {
        self.wake_by_ref(t);
    }

    /// Says that the task has something to do.
    pub fn wake_by_ref(&self, t: &mut TaskWaker)
        ensures
            *final(t) == self.woken(*old(t)),
    {
        if t.task == self.task {
            t.ready = true;
        }
    }
}

/// A waker of a task makes it ready, also after it was cleared, however often the
/// waker was copied; and no other task.
pub proof fn law_wakers_wake(t: TaskWaker, w: Waker)
    ensures
        w == (Waker { task: t.task }) ==> w.woken(t).ready && w.woken(
            TaskWaker { ready: false, ..t },
        ).ready,
        w != (Waker { task: t.task }) ==> w.woken(t) == t,
        w.woken(w.woken(t)) == w.woken(t),
{
}

} // verus!
