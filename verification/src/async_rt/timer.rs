//! Waiting for a number of ticks.
use crate::async_rt::context::Context;
use crate::async_rt::reactor::{self, Reactor, SlotId, TimerSlot};
use crate::async_rt::waker::Waker;
use crate::async_rt::{Future, Poll};
use vstd::prelude::*;

verus! {

/// Is ready after a number of ticks.
#[derive(Clone, Copy, PartialEq, Eq, Structural, Debug)]
pub struct Timer {
    /// The timer's slot, once it is registered.
    pub slot: Option<SlotId>,
    /// The ticks to wait for.
    pub delay: u64,
}

/// The slot of a timer, and the timers with it: it is registered at the first poll.
pub open spec fn registered<T, M>(
    t: Timer,
    r: Reactor<T, M>,
    slot: SlotId,
    timers: Seq<TimerSlot>,
) -> bool {
    match t.slot {
        Some(id) => slot == id && timers == r.timers@,
        None => {
            let fresh = reactor::fresh_timer(reactor::later(r.tick, t.delay));
            &&& r.first_free_timer(slot as int)
            &&& timers == (if slot < r.timers@.len() {
                r.timers@.update(slot as int, fresh)
            } else {
                r.timers@.push(fresh)
            })
        },
    }
}

/// The slot has come.
pub open spec fn has_come(timers: Seq<TimerSlot>, slot: SlotId, tick: u64) -> bool {
    slot < timers.len() && timers[slot as int].active && tick >= timers[slot as int].deadline_tick
}

/// What a poll makes of a timer that is registered.
pub open spec fn timer_polled<T, M>(
    before: Timer,
    c0: Context<T, M>,
    slot: SlotId,
    timers: Seq<TimerSlot>,
    after: Timer,
    c1: Context<T, M>,
    r: Poll<()>,
) -> bool {
    &&& registered(before, c0.reactor, slot, timers)
    &&& c1.reactor.servers == c0.reactor.servers
    &&& c1.reactor.tick == c0.reactor.tick
    &&& c1.reactor.spawn_queue == c0.reactor.spawn_queue
    &&& c1.waker == c0.waker
    &&& c1.woken == c0.woken
    &&& after.delay == before.delay
    &&& if has_come(timers, slot, c0.reactor.tick) {
        &&& r is Ready
        &&& after.slot is None
        &&& c1.reactor.timers@ == timers.update(
            slot as int,
            TimerSlot { waker: None, active: false, ..timers[slot as int] },
        )
    } else {
        &&& r is Pending
        &&& after.slot == Some(slot)
        &&& c1.reactor.timers@ == (if slot < timers.len() {
            timers.update(
                slot as int,
                TimerSlot { waker: Some(c0.waker), ..timers[slot as int] },
            )
        } else {
            timers
        })
    }
}

impl Timer {
    /// A timer that comes so many ticks after it is first polled.
    pub fn after(ticks: u64) -> (r: Timer)
        ensures
            r == (Timer { slot: None, delay: ticks }),
    {
        Timer { slot: None, delay: ticks }
    }

    /// Gives the slot back when the timer is no longer waited for.
    pub fn cancel<T, M>(&mut self, reactor: &mut Reactor<T, M>)
        ensures
            *final(self) == (Timer { slot: None, ..*old(self) }),
            final(reactor).servers == old(reactor).servers,
            final(reactor).tick == old(reactor).tick,
            final(reactor).spawn_queue == old(reactor).spawn_queue,
            final(reactor).timers@ == (match old(self).slot {
                Some(id) if id < old(reactor).timers@.len() => old(reactor).timers@.update(
                    id as int,
                    TimerSlot { waker: None, active: false, ..old(reactor).timers@[id as int] },
                ),
                _ => old(reactor).timers@,
            }),
    {
        if let Some(id) = self.slot {
            reactor.unregister_timer(id);
        }
        self.slot = None;
    }
}

impl<T, M> Future<Context<T, M>> for Timer {
    type Output = ();

    open spec fn polled(
        before: Timer,
        c0: Context<T, M>,
        after: Timer,
        c1: Context<T, M>,
        r: Poll<()>,
    ) -> bool {
        exists|slot: SlotId, timers: Seq<TimerSlot>| #[trigger]
            timer_polled(before, c0, slot, timers, after, c1, r)
    }

    fn poll(&mut self, cx: &mut Context<T, M>) -> (r: Poll<()>) {
        let ghost before = *self;
        let ghost c0 = *cx;
        let slot: SlotId = match self.slot {
            Some(id) => id,
            None => {
                let id: SlotId = cx.reactor.register_timer(self.delay);
                self.slot = Some(id);
                id
            },
        };
        let ghost timers = cx.reactor.timers@;
        if cx.reactor.timer_expired(slot) {
            cx.reactor.unregister_timer(slot);
            self.slot = None;
            let r: Poll<()> = Poll::Ready(());
            assert(timer_polled(before, c0, slot, timers, *self, *cx, r));
            r
        } else {
            let waker: Waker = cx.waker;
            cx.reactor.set_timer_waker(slot, waker);
            let r: Poll<()> = Poll::Pending;
            assert(timer_polled(before, c0, slot, timers, *self, *cx, r));
            r
        }
    }
}

/// A timer that is polled for the first time is ready at once exactly where it waits
/// for no tick; where it is not, it is registered for the tick so many ticks on, and
/// its task is to be woken then. (At the last tick that there is, every timer is
/// ready.)
pub proof fn law_first_poll<T, M>(
    before: Timer,
    c0: Context<T, M>,
    after: Timer,
    c1: Context<T, M>,
    r: Poll<()>,
)
    requires
        before.slot is None,
        c0.reactor.tick < u64::MAX,
        <Timer as Future<Context<T, M>>>::polled(before, c0, after, c1, r),
    ensures
        r is Ready <==> before.delay == 0,
        r is Pending ==> {
            &&& after.slot matches Some(id)
            &&& id < c1.reactor.timers@.len()
            &&& c1.reactor.timers@[id as int] == (TimerSlot {
                deadline_tick: reactor::later(c0.reactor.tick, before.delay) as u64,
                waker: Some(c0.waker),
                active: true,
            })
        },
{
    let (slot, timers) = choose|slot: SlotId, timers: Seq<TimerSlot>| #[trigger]
        timer_polled(before, c0, slot, timers, after, c1, r);
    assert(timer_polled(before, c0, slot, timers, after, c1, r));
}

/// A timer that is registered is ready once its tick has come, and not before; and
/// then its slot is free again.
pub proof fn law_timer_waits<T, M>(
    before: Timer,
    c0: Context<T, M>,
    after: Timer,
    c1: Context<T, M>,
    r: Poll<()>,
    id: SlotId,
)
    requires
        before.slot == Some(id),
        id < c0.reactor.timers@.len(),
        c0.reactor.timers@[id as int].active,
        <Timer as Future<Context<T, M>>>::polled(before, c0, after, c1, r),
    ensures
        r is Ready <==> c0.reactor.tick >= c0.reactor.timers@[id as int].deadline_tick,
        r is Ready ==> !c1.reactor.timers@[id as int].active && after.slot is None,
        r is Pending ==> after == before && c1.reactor.timers@[id as int].waker == Some(c0.waker),
{
    let (slot, timers) = choose|slot: SlotId, timers: Seq<TimerSlot>| #[trigger]
        timer_polled(before, c0, slot, timers, after, c1, r);
    assert(timer_polled(before, c0, slot, timers, after, c1, r));
}

} // verus!
