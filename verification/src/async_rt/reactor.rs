//! What tasks wait for: messages and timers.
use crate::async_rt::waker::Waker;
use std::collections::VecDeque;
use vstd::prelude::*;

verus! {

/// The number of a slot.
pub type SlotId = usize;

/// The name of a server.
pub type Sid = [u32; 4];

/// A server whose messages are waited for.
pub struct ServerSlot<M> {
    pub sid: Sid,
    pub queue: VecDeque<M>,
    pub waker: Option<Waker>,
    pub active: bool,
}

/// A server slot, as contracts see it.
#[verifier::ext_equal]
pub struct ServerModel<M> {
    pub sid: Sid,
    pub queue: Seq<M>,
    pub waker: Option<Waker>,
    pub active: bool,
}

impl<M> View for ServerSlot<M> {
    type V = ServerModel<M>;

    open spec fn view(&self) -> ServerModel<M> {
        ServerModel {
            sid: self.sid,
            queue: self.queue@,
            waker: self.waker,
            active: self.active,
        }
    }
}

/// A moment that is waited for.
#[derive(Clone, Copy, PartialEq, Eq, Structural, Debug)]
pub struct TimerSlot {
    pub deadline_tick: u64,
    pub waker: Option<Waker>,
    pub active: bool,
}

/// What tasks wait for, and the tasks that tasks have started.
pub struct Reactor<T, M> {
    pub servers: Vec<ServerSlot<M>>,
    pub timers: Vec<TimerSlot>,
    pub tick: u64,
    pub spawn_queue: Vec<T>,
}

/// A server that was just registered.
pub open spec fn fresh_server<M>(sid: Sid) -> ServerModel<M> {
    ServerModel { sid, queue: Seq::empty(), waker: None, active: true }
}

/// A server that is no longer registered.
pub open spec fn retired<M>(s: ServerModel<M>) -> ServerModel<M> {
    ServerModel { queue: Seq::empty(), waker: None, active: false, ..s }
}

/// A timer that was just registered.
pub open spec fn fresh_timer(deadline: int) -> TimerSlot {
    TimerSlot { deadline_tick: deadline as u64, waker: None, active: true }
}

/// A tick so many ticks on; the last one where there are not so many.
pub open spec fn later(tick: u64, delay: u64) -> int {
    if tick + delay <= u64::MAX {
        tick + delay
    } else {
        u64::MAX as int
    }
}

/// A timer that has come, and whose task waits.
pub open spec fn fires(t: TimerSlot, tick: u64) -> bool {
    t.active && tick >= t.deadline_tick && t.waker is Some
}

/// The timers after those that have come have fired.
pub open spec fn after_firing(timers: Seq<TimerSlot>, tick: u64) -> Seq<TimerSlot> {
    Seq::new(
        timers.len(),
        |i: int|
            if fires(timers[i], tick) {
                TimerSlot { waker: None, ..timers[i] }
            } else {
                timers[i]
            },
    )
}

/// The wakers of the timers that have come, in the order of the slots.
pub open spec fn fired(timers: Seq<TimerSlot>, tick: u64) -> Seq<Waker>
    decreases timers.len(),
{
    if timers.len() == 0 {
        Seq::empty()
    } else {
        let before = fired(timers.drop_last(), tick);
        if fires(timers.last(), tick) {
            before.push(timers.last().waker->0)
        } else {
            before
        }
    }
}

/// What a receive from a slot found.
pub enum Receive<M> {
    /// The slot is not in use.
    Inactive,
    /// A message that was buffered.
    Message(M),
    /// Nothing was buffered; the kernel may have a message for the server.
    AskKernel(Sid),
}

impl<T, M> Reactor<T, M> {
    /// The server slots.
    pub open spec fn server_slots(&self) -> Seq<ServerModel<M>> {
        self.servers@.map_values(|s: ServerSlot<M>| s@)
    }

    /// Nothing is waited for.
    pub fn new() -> (r: Reactor<T, M>)
        ensures
            r.servers@.len() == 0,
            r.timers@.len() == 0,
            r.tick == 0,
            r.spawn_queue@.len() == 0,
    {
        Reactor { servers: Vec::new(), timers: Vec::new(), tick: 0, spawn_queue: Vec::new() }
    }

    /// A slot is the first one that is free, or a new one where none is.
    pub open spec fn first_free_server(&self, id: int) -> bool {
        &&& 0 <= id <= self.servers@.len()
        &&& forall|i: int| 0 <= i < id ==> (#[trigger] self.servers@[i]).active
        &&& id < self.servers@.len() ==> !self.servers@[id].active
    }

    /// Registers a server, in the first slot that is free.
    pub fn register_server(&mut self, sid: Sid) -> (r: SlotId)
        ensures
            old(self).first_free_server(r as int),
            final(self).server_slots() == (if r < old(self).servers@.len() {
                old(self).server_slots().update(r as int, fresh_server(sid))
            } else {
                old(self).server_slots().push(fresh_server(sid))
            }),
            final(self).timers == old(self).timers,
            final(self).tick == old(self).tick,
            final(self).spawn_queue == old(self).spawn_queue,
    {
        let slot: ServerSlot<M> = ServerSlot {
            sid,
            queue: VecDeque::new(),
            waker: None,
            active: true,
        };
        assert(slot@ =~= fresh_server(sid));
        let n: usize = self.servers.len();
        let mut i: usize = 0;
        while i < n
            invariant
                i <= n,
                n == self.servers@.len(),
                *self == *old(self),
                slot@ == fresh_server::<M>(sid),
                forall|j: int| 0 <= j < i ==> (#[trigger] self.servers@[j]).active,
            decreases n - i,
        {
            if !self.servers[i].active {
                self.servers.set(i, slot);
                assert(self.server_slots() =~= old(self).server_slots().update(
                    i as int,
                    fresh_server(sid),
                ));
                return i;
            }
            i = i + 1;
        }
        self.servers.push(slot);
        assert(self.server_slots() =~= old(self).server_slots().push(fresh_server(sid)));
        n
    }

    /// Frees the slot of a server, and drops what was buffered.
    pub fn unregister_server(&mut self, id: SlotId)
        ensures
            final(self).server_slots() == (if id < old(self).servers@.len() {
                old(self).server_slots().update(
                    id as int,
                    retired(old(self).server_slots()[id as int]),
                )
            } else {
                old(self).server_slots()
            }),
            final(self).timers == old(self).timers,
            final(self).tick == old(self).tick,
            final(self).spawn_queue == old(self).spawn_queue,
    {
        if id < self.servers.len() {
            let sid: Sid = self.servers[id].sid;
            let slot: ServerSlot<M> = ServerSlot {
                sid,
                queue: VecDeque::new(),
                waker: None,
                active: false,
            };
            assert(slot@ =~= retired(self.servers@[id as int]@));
            self.servers.set(id, slot);
            assert(self.server_slots() =~= old(self).server_slots().update(
                id as int,
                retired(old(self).server_slots()[id as int]),
            ));
        }
    }

    /// Takes a message of a server that was buffered, or says whom to ask for one.
    pub fn try_recv(&mut self, id: SlotId) -> (r: Receive<M>)
        ensures
            final(self).timers == old(self).timers,
            final(self).tick == old(self).tick,
            final(self).spawn_queue == old(self).spawn_queue,
            ({
                let slots = old(self).server_slots();
                if id >= slots.len() || !slots[id as int].active {
                    r is Inactive && final(self).server_slots() == slots
                } else if slots[id as int].queue.len() == 0 {
                    r == Receive::<M>::AskKernel(slots[id as int].sid)
                        && final(self).server_slots() == slots
                } else {
                    let slot = slots[id as int];
                    &&& r == Receive::Message(slot.queue[0])
                    &&& final(self).server_slots() == slots.update(
                        id as int,
                        ServerModel { queue: slot.queue.drop_first(), ..slot },
                    )
                }
            }),
    {
        if id >= self.servers.len() {
            return Receive::Inactive;
        }
        if !self.servers[id].active {
            return Receive::Inactive;
        }
        let message: Option<M> = self.servers[id].queue.pop_front();
        match message {
            Some(m) => {
                let ghost slot = old(self).server_slots()[id as int];
                assert(self.servers@[id as int]@ =~= (ServerModel {
                    queue: slot.queue.drop_first(),
                    ..slot
                }));
                assert(self.server_slots() =~= old(self).server_slots().update(
                    id as int,
                    ServerModel { queue: slot.queue.drop_first(), ..slot },
                ));
                Receive::Message(m)
            },
            None => {
                assert(self.server_slots() =~= old(self).server_slots());
                Receive::AskKernel(self.servers[id].sid)
            },
        }
    }

    /// Whether a slot is that of a server.
    pub fn server_active(&self, id: SlotId) -> (r: bool)
        ensures
            r == (id < self.servers@.len() && self.servers@[id as int].active),
    {
        id < self.servers.len() && self.servers[id].active
    }

    /// Sets whom to wake when a message comes.
    pub fn set_server_waker(&mut self, id: SlotId, waker: Waker)
        ensures
            final(self).server_slots() == (if id < old(self).servers@.len() {
                old(self).server_slots().update(
                    id as int,
                    ServerModel { waker: Some(waker), ..old(self).server_slots()[id as int] },
                )
            } else {
                old(self).server_slots()
            }),
            final(self).timers == old(self).timers,
            final(self).tick == old(self).tick,
            final(self).spawn_queue == old(self).spawn_queue,
    {
        if id < self.servers.len() {
            self.servers[id].waker = Some(waker);
            assert(self.server_slots() =~= old(self).server_slots().update(
                id as int,
                ServerModel { waker: Some(waker), ..old(self).server_slots()[id as int] },
            ));
        }
    }

    /// The first server at or after a slot that messages are to be fetched for.
    pub fn next_server(&self, from: SlotId) -> (r: Option<(SlotId, Sid)>)
        ensures
            match r {
                Some(s) => {
                    &&& from <= s.0 < self.servers@.len()
                    &&& self.servers@[s.0 as int].active
                    &&& self.servers@[s.0 as int].sid == s.1
                    &&& forall|i: int| from <= i < s.0 ==> !(#[trigger] self.servers@[i]).active
                },
                None => forall|i: int|
                    from <= i < self.servers@.len() ==> !(#[trigger] self.servers@[i]).active,
            },
    {
        let mut i: usize = from;
        while i < self.servers.len()
            invariant
                from <= i,
                from <= self.servers@.len() ==> i <= self.servers@.len(),
                forall|j: int|
                    from <= j < i && j < self.servers@.len() ==> !(
                    #[trigger] self.servers@[j]).active,
            decreases self.servers@.len() - i,
        {
            if self.servers[i].active {
                return Some((i, self.servers[i].sid));
            }
            i = i + 1;
        }
        None
    }

    /// Buffers a message that came for a server: whom to wake, the first time after
    /// somebody waited.
    pub fn deliver(&mut self, id: SlotId, message: M) -> (r: Option<Waker>)
        requires
            id < old(self).servers@.len(),
            old(self).servers@[id as int].active,
        ensures
            r == old(self).servers@[id as int].waker,
            final(self).server_slots() == ({
                let slot = old(self).server_slots()[id as int];
                old(self).server_slots().update(
                    id as int,
                    ServerModel { queue: slot.queue.push(message), waker: None, ..slot },
                )
            }),
            final(self).timers == old(self).timers,
            final(self).tick == old(self).tick,
            final(self).spawn_queue == old(self).spawn_queue,
    {
        let ghost slot = self.server_slots()[id as int];
        self.servers[id].queue.push_back(message);
        let waker: Option<Waker> = self.servers[id].waker;
        self.servers[id].waker = None;
        assert(self.servers@[id as int]@ =~= (ServerModel {
            queue: slot.queue.push(message),
            waker: None,
            ..slot
        }));
        assert(self.server_slots() =~= old(self).server_slots().update(
            id as int,
            ServerModel { queue: slot.queue.push(message), waker: None, ..slot },
        ));
        waker
    }

    /// A slot is the first one that is free, or a new one where none is.
    pub open spec fn first_free_timer(&self, id: int) -> bool {
        &&& 0 <= id <= self.timers@.len()
        &&& forall|i: int| 0 <= i < id ==> (#[trigger] self.timers@[i]).active
        &&& id < self.timers@.len() ==> !self.timers@[id].active
    }

    /// Registers a timer that comes so many ticks on, in the first slot that is free.
    pub fn register_timer(&mut self, delay_ticks: u64) -> (r: SlotId)
        ensures
            old(self).first_free_timer(r as int),
            final(self).timers@ == (if r < old(self).timers@.len() {
                old(self).timers@.update(
                    r as int,
                    fresh_timer(later(old(self).tick, delay_ticks)),
                )
            } else {
                old(self).timers@.push(fresh_timer(later(old(self).tick, delay_ticks)))
            }),
            final(self).servers == old(self).servers,
            final(self).tick == old(self).tick,
            final(self).spawn_queue == old(self).spawn_queue,
    {
        let deadline: u64 = self.tick.saturating_add(delay_ticks);
        let slot: TimerSlot = TimerSlot { deadline_tick: deadline, waker: None, active: true };
        let n: usize = self.timers.len();
        let mut i: usize = 0;
        while i < n
            invariant
                i <= n,
                n == self.timers@.len(),
                *self == *old(self),
                slot == fresh_timer(later(self.tick, delay_ticks)),
                forall|j: int| 0 <= j < i ==> (#[trigger] self.timers@[j]).active,
            decreases n - i,
        {
            if !self.timers[i].active {
                self.timers.set(i, slot);
                return i;
            }
            i = i + 1;
        }
        self.timers.push(slot);
        n
    }

    /// Frees the slot of a timer.
    pub fn unregister_timer(&mut self, id: SlotId)
        ensures
            final(self).timers@ == (if id < old(self).timers@.len() {
                old(self).timers@.update(
                    id as int,
                    TimerSlot { waker: None, active: false, ..old(self).timers@[id as int] },
                )
            } else {
                old(self).timers@
            }),
            final(self).servers == old(self).servers,
            final(self).tick == old(self).tick,
            final(self).spawn_queue == old(self).spawn_queue,
    {
        if id < self.timers.len() {
            let slot: TimerSlot = TimerSlot {
                deadline_tick: self.timers[id].deadline_tick,
                waker: None,
                active: false,
            };
            self.timers.set(id, slot);
        }
    }

    /// A timer has come.
    pub open spec fn expired(&self, id: int) -> bool {
        0 <= id < self.timers@.len() && self.timers@[id].active && self.tick
            >= self.timers@[id].deadline_tick
    }

    /// Whether a timer has come.
    pub fn timer_expired(&self, id: SlotId) -> (r: bool)
        ensures
            r == self.expired(id as int),
    {
        id < self.timers.len() && self.timers[id].active && self.tick
            >= self.timers[id].deadline_tick
    }

    /// Sets whom to wake when a timer comes.
    pub fn set_timer_waker(&mut self, id: SlotId, waker: Waker)
        ensures
            final(self).timers@ == (if id < old(self).timers@.len() {
                old(self).timers@.update(
                    id as int,
                    TimerSlot { waker: Some(waker), ..old(self).timers@[id as int] },
                )
            } else {
                old(self).timers@
            }),
            final(self).servers == old(self).servers,
            final(self).tick == old(self).tick,
            final(self).spawn_queue == old(self).spawn_queue,
    {
        if id < self.timers.len() {
            let slot: TimerSlot = TimerSlot {
                deadline_tick: self.timers[id].deadline_tick,
                waker: Some(waker),
                active: self.timers[id].active,
            };
            self.timers.set(id, slot);
        }
    }

    /// Goes on to the next tick: whom to wake because a timer has come.
    pub fn poll_timers(&mut self) -> (r: Vec<Waker>)
        ensures
            final(self).tick == later(old(self).tick, 1),
            final(self).timers@ == after_firing(old(self).timers@, final(self).tick),
            r@ == fired(old(self).timers@, final(self).tick),
            final(self).servers == old(self).servers,
            final(self).spawn_queue == old(self).spawn_queue,
    {
        self.tick = self.tick.saturating_add(1);
        let mut woken: Vec<Waker> = Vec::new();
        let n: usize = self.timers.len();
        let ghost before = self.timers@;
        let mut i: usize = 0;
        assert(before.take(0) =~= Seq::empty());
        while i < n
            invariant
                i <= n,
                n == before.len(),
                self.timers@.len() == n,
                self.tick == later(old(self).tick, 1),
                self.servers == old(self).servers,
                self.spawn_queue == old(self).spawn_queue,
                woken@ == fired(before.take(i as int), self.tick),
                forall|j: int|
                    0 <= j < i ==> #[trigger] self.timers@[j] == after_firing(
                        before,
                        self.tick,
                    )[j],
                forall|j: int| i <= j < n ==> #[trigger] self.timers@[j] == before[j],
            decreases n - i,
        {
            let slot: TimerSlot = self.timers[i];
            let ghost next = before.take(i + 1);
            assert(next.drop_last() =~= before.take(i as int));
            assert(next.last() == slot);
            if slot.active && self.tick >= slot.deadline_tick {
                if let Some(w) = slot.waker {
                    woken.push(w);
                    self.timers.set(
                        i,
                        TimerSlot {
                            deadline_tick: slot.deadline_tick,
                            waker: None,
                            active: slot.active,
                        },
                    );
                }
            }
            i = i + 1;
        }
        assert(before.take(n as int) =~= before);
        assert(self.timers@ =~= after_firing(before, self.tick));
        woken
    }

    /// Keeps a task that a task starts.
    pub fn enqueue_spawn(&mut self, task: T)
        ensures
            final(self).spawn_queue@ == old(self).spawn_queue@.push(task),
            final(self).servers == old(self).servers,
            final(self).timers == old(self).timers,
            final(self).tick == old(self).tick,
    {
        self.spawn_queue.push(task);
    }

    /// Hands out the tasks that were started.
    pub fn drain_spawns(&mut self) -> (r: Vec<T>)
        ensures
            r@ == old(self).spawn_queue@,
            final(self).spawn_queue@.len() == 0,
            final(self).servers == old(self).servers,
            final(self).timers == old(self).timers,
            final(self).tick == old(self).tick,
    {
        let mut out: Vec<T> = Vec::new();
        std::mem::swap(&mut out, &mut self.spawn_queue);
        out
    }
}

/// A timer whose task waits wakes it at the tick that it was set for, not before,
/// and once.
pub proof fn law_timer_fires_once(timers: Seq<TimerSlot>, i: int, tick: u64, later: u64)
    requires
        0 <= i < timers.len(),
        timers[i].active,
        timers[i].waker is Some,
    ensures
        tick < timers[i].deadline_tick ==> after_firing(timers, tick)[i] == timers[i],
        tick >= timers[i].deadline_tick ==> fired(timers, tick).contains(timers[i].waker->0),
        tick >= timers[i].deadline_tick ==> !fires(after_firing(timers, tick)[i], later),
    decreases timers.len(),
{
    if tick >= timers[i].deadline_tick {
        let before = fired(timers.drop_last(), tick);
        if i == timers.len() - 1 {
            assert(fired(timers, tick).last() == timers[i].waker->0);
        } else {
            law_timer_fires_once(timers.drop_last(), i, tick, later);
            let k = choose|k: int| 0 <= k < before.len() && before[k] == timers[i].waker->0;
            assert(fired(timers, tick)[k] == timers[i].waker->0);
        }
    }
}

/// Messages of a server come out in the order in which they came in, and none is
/// lost.
pub proof fn law_messages_in_order<M>(slot: ServerModel<M>, message: M)
    ensures
        slot.queue.len() > 0 ==> slot.queue.push(message)[0] == slot.queue[0],
        slot.queue.len() > 0 ==> slot.queue.push(message).drop_first()
            == slot.queue.drop_first().push(message),
        slot.queue.len() == 0 ==> slot.queue.push(message)[0] == message,
{
    if slot.queue.len() > 0 {
        assert(slot.queue.push(message).drop_first() =~= slot.queue.drop_first().push(message));
    }
}

/// Nobody is woken early, and nobody who does not wait: each waker that fires is that of a
/// timer in use whose moment has come.
pub proof fn law_nobody_is_woken_early(timers: Seq<TimerSlot>, tick: u64, k: int)
    requires
        0 <= k < fired(timers, tick).len(),
    ensures
        exists|i: int|
            0 <= i < timers.len() && (#[trigger] timers[i]).active && timers[i].deadline_tick
                <= tick && timers[i].waker == Some(fired(timers, tick)[k]),
        fired(timers, tick).len() <= timers.len(),
    decreases timers.len(),
{
    let rest = timers.drop_last();
    let before = fired(rest, tick);
    let last = timers.len() - 1;
    lemma_fired_len(timers, tick);
    if k < before.len() {
        law_nobody_is_woken_early(rest, tick, k);
        let i = choose|i: int|
            0 <= i < rest.len() && (#[trigger] rest[i]).active && rest[i].deadline_tick <= tick
                && rest[i].waker == Some(before[k]);
        assert(timers[i] == rest[i]);
        assert(fired(timers, tick)[k] == before[k]);
    } else {
        assert(timers[last].active);
    }
}

/// No timer fires twice at a time.
proof fn lemma_fired_len(timers: Seq<TimerSlot>, tick: u64)
    ensures
        fired(timers, tick).len() <= timers.len(),
    decreases timers.len(),
{
    if timers.len() > 0 {
        lemma_fired_len(timers.drop_last(), tick);
    }
}

/// A timer that is registered comes as many ticks later as was asked for: not before, and from
/// then on.
pub proof fn law_timer_comes_in_time(tick: u64, delay: u64, waker: Waker, now: u64)
    requires
        tick + delay <= u64::MAX,
    ensures
        ({
            let t = TimerSlot { waker: Some(waker), ..fresh_timer(later(tick, delay)) };
            fires(t, now) <==> now - tick >= delay
        }),
{
}

} // verus!
