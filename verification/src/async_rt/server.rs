//! Waiting for messages.
use crate::async_rt::context::Context;
use crate::async_rt::reactor::{self, Reactor, Receive, ServerModel, Sid, SlotId};
use crate::async_rt::waker::Waker;
use crate::async_rt::Poll;
use vstd::prelude::*;

verus! {

/// Why no message can come.
#[derive(Clone, Copy, PartialEq, Eq, Structural, Debug)]
pub enum RecvError {
    /// The server is not registered.
    ServerGone,
}

impl RecvError {
    /// The error in words.
    pub fn message(&self) -> (r: &'static str)
        ensures
            r@ == "server no longer registered with reactor"@,
    {
        match self {
            RecvError::ServerGone => "server no longer registered with reactor",
        }
    }
}

/// A server whose messages tasks wait for.
pub struct AsyncServer {
    pub sid: Sid,
    pub slot: SlotId,
}

impl AsyncServer {
    /// Registers a server.
    pub fn new<T, M>(reactor: &mut Reactor<T, M>, sid: Sid) -> (r: AsyncServer)
        ensures
            r.sid == sid,
            old(reactor).first_free_server(r.slot as int),
            final(reactor).server_slots() == (if r.slot < old(reactor).servers@.len() {
                old(reactor).server_slots().update(r.slot as int, reactor::fresh_server(sid))
            } else {
                old(reactor).server_slots().push(reactor::fresh_server(sid))
            }),
            final(reactor).timers == old(reactor).timers,
            final(reactor).tick == old(reactor).tick,
            final(reactor).spawn_queue == old(reactor).spawn_queue,
    {
        let slot: SlotId = reactor.register_server(sid);
        AsyncServer { sid, slot }
    }

    /// Waits for the next message.
    pub fn next(&mut self) -> (r: RecvFuture<'_>)
        ensures
            *r.server == *old(self),
            *final(self) == *final(r.server),
    {
        RecvFuture { server: self }
    }

    /// The name of the server.
    pub fn sid(&self) -> (r: Sid)
        ensures
            r == self.sid,
    {
        self.sid
    }

    /// Gives the slot back when the server is no longer waited for.
    pub fn close<T, M>(self, reactor: &mut Reactor<T, M>)
        ensures
            final(reactor).server_slots() == (if self.slot < old(reactor).servers@.len() {
                old(reactor).server_slots().update(
                    self.slot as int,
                    reactor::retired(old(reactor).server_slots()[self.slot as int]),
                )
            } else {
                old(reactor).server_slots()
            }),
            final(reactor).timers == old(reactor).timers,
            final(reactor).tick == old(reactor).tick,
            final(reactor).spawn_queue == old(reactor).spawn_queue,
    {
        reactor.unregister_server(self.slot);
    }
}

/// The next message of a server. A poll has two steps: it looks at what was buffered,
/// and where that is nothing, takes what the kernel gave.
pub struct RecvFuture<'a> {
    pub server: &'a mut AsyncServer,
}

/// What the first step of a poll comes to.
pub enum RecvStep<M> {
    /// The poll is over.
    Ready(Result<M, RecvError>),
    /// The kernel is to be asked for a message of the server.
    AskKernel(Sid),
}

impl<'a> RecvFuture<'a> {
    /// Looks at what was buffered.
    pub fn poll_buffered<T, M>(&self, cx: &mut Context<T, M>) -> (r: RecvStep<M>)
        ensures
            final(cx).waker == old(cx).waker,
            final(cx).woken == old(cx).woken,
            final(cx).reactor.timers == old(cx).reactor.timers,
            final(cx).reactor.tick == old(cx).reactor.tick,
            final(cx).reactor.spawn_queue == old(cx).reactor.spawn_queue,
            ({
                let slots = old(cx).reactor.server_slots();
                let id = old(self.server).slot as int;
                if id >= slots.len() || !slots[id].active {
                    &&& r == RecvStep::<M>::Ready(Err(RecvError::ServerGone))
                    &&& final(cx).reactor.server_slots() == slots
                } else if slots[id].queue.len() == 0 {
                    &&& r == RecvStep::<M>::AskKernel(slots[id].sid)
                    &&& final(cx).reactor.server_slots() == slots
                } else {
                    &&& r == RecvStep::<M>::Ready(Ok(slots[id].queue[0]))
                    &&& final(cx).reactor.server_slots() == slots.update(
                        id,
                        ServerModel { queue: slots[id].queue.drop_first(), ..slots[id] },
                    )
                }
            }),
    {
        let received: Receive<M> = cx.reactor.try_recv(self.server.slot);
        match received {
            Receive::Inactive => RecvStep::Ready(Err(RecvError::ServerGone)),
            Receive::Message(m) => RecvStep::Ready(Ok(m)),
            Receive::AskKernel(sid) => RecvStep::AskKernel(sid),
        }
    }

    /// Takes what the kernel gave; without a message, the task is woken when one
    /// comes.
    pub fn poll_received<T, M>(&self, cx: &mut Context<T, M>, received: Option<M>) -> (r: Poll<
        Result<M, RecvError>,
    >)
        ensures
            final(cx).waker == old(cx).waker,
            final(cx).woken == old(cx).woken,
            final(cx).reactor.timers == old(cx).reactor.timers,
            final(cx).reactor.tick == old(cx).reactor.tick,
            final(cx).reactor.spawn_queue == old(cx).reactor.spawn_queue,
            match received {
                Some(m) => {
                    &&& r == Poll::Ready(Ok::<M, RecvError>(m))
                    &&& final(cx).reactor.server_slots() == old(cx).reactor.server_slots()
                },
                None => {
                    let slots = old(cx).reactor.server_slots();
                    let id = old(self.server).slot as int;
                    &&& r is Pending
                    &&& final(cx).reactor.server_slots() == (if id < slots.len() {
                        slots.update(
                            id,
                            ServerModel { waker: Some(old(cx).waker), ..slots[id] },
                        )
                    } else {
                        slots
                    })
                },
            },
    {
        match received {
            Some(m) => Poll::Ready(Ok(m)),
            None => {
                let waker: Waker = cx.waker;
                cx.reactor.set_server_waker(self.server.slot, waker);
                Poll::Pending
            },
        }
    }
}

} // verus!
