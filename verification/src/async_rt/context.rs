//! What a task can reach while it is polled.
use crate::async_rt::reactor::Reactor;
use crate::async_rt::waker::Waker;
use vstd::prelude::*;

verus! {

/// What a task can reach while it is polled.
pub struct Context<T, M> {
    /// Wakes the task itself.
    pub waker: Waker,
    /// The tasks that were woken.
    pub woken: Vec<Waker>,
    /// What tasks wait for.
    pub reactor: Reactor<T, M>,
}

/// Starts tasks while others run.
#[derive(Clone, Copy)]
pub struct Spawner {}

impl<T, M> Context<T, M> {
    /// A context in which nothing has happened.
    pub fn new() -> (r: Context<T, M>)
        ensures
            r.woken@.len() == 0,
            r.reactor.servers@.len() == 0,
            r.reactor.timers@.len() == 0,
            r.reactor.tick == 0,
            r.reactor.spawn_queue@.len() == 0,
    {
        Context { waker: Waker { task: 0 }, woken: Vec::new(), reactor: Reactor::new() }
    }

    /// Wakes a task.
    pub fn wake(&mut self, waker: Waker)
        ensures
            final(self).woken@ == old(self).woken@.push(waker),
            final(self).waker == old(self).waker,
            final(self).reactor == old(self).reactor,
    {
        self.woken.push(waker);
    }

    /// Wakes the task itself, so that it is polled again.
    pub fn wake_self(&mut self)
        ensures
            final(self).woken@ == old(self).woken@.push(old(self).waker),
            final(self).waker == old(self).waker,
            final(self).reactor == old(self).reactor,
    {
        let waker: Waker = self.waker;
        self.wake(waker);
    }
}

impl Spawner {
    /// Starts a task; it has its first turn in the next round.
    pub fn spawn<T, M>(&self, cx: &mut Context<T, M>, task: T)
        ensures
            final(cx).reactor.spawn_queue@ == old(cx).reactor.spawn_queue@.push(task),
            final(cx).reactor.servers == old(cx).reactor.servers,
            final(cx).reactor.timers == old(cx).reactor.timers,
            final(cx).reactor.tick == old(cx).reactor.tick,
            final(cx).waker == old(cx).waker,
            final(cx).woken == old(cx).woken,
    {
        cx.reactor.enqueue_spawn(task);
    }
}

} // verus!
