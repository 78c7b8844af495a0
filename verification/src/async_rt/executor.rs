//! Gives tasks their turns.
use crate::async_rt::context::{Context, Spawner};
use crate::async_rt::reactor::{self, ServerModel, SlotId};
use crate::async_rt::waker::{TaskWaker, Waker};
use crate::async_rt::{Future, Poll};
use vstd::prelude::*;

verus! {

/// A task.
pub struct Task<T> {
    pub future: T,
    pub waker: TaskWaker,
    pub completed: bool,
}

/// Gives tasks their turns.
pub struct Executor<T, M> {
    pub tasks: Vec<Task<T>>,
    pub cx: Context<T, M>,
}

/// How a round ended.
#[derive(Clone, Copy, PartialEq, Eq, Structural, Debug)]
pub enum Round {
    /// Every task is done.
    Finished,
    /// Something happened: the next round can follow at once.
    Progress,
    /// Nothing happened: others may have the processor before the next round.
    Idle,
}

/// A task that was just started: it is ready for its first turn.
pub open spec fn started<T>(future: T, task: usize) -> Task<T> {
    Task { future, waker: TaskWaker { task, ready: true }, completed: false }
}

/// Tasks, with those that were started behind them.
pub open spec fn with_started<T>(tasks: Seq<Task<T>>, futures: Seq<T>) -> Seq<Task<T>> {
    tasks + Seq::new(
        futures.len(),
        |i: int| started(futures[i], (tasks.len() + i) as usize),
    )
}

/// Tasks, with those woken that `woken` lists.
pub open spec fn with_woken<T>(tasks: Seq<Task<T>>, woken: Seq<Waker>) -> Seq<Task<T>> {
    Seq::new(
        tasks.len(),
        |i: int|
            Task {
                waker: TaskWaker {
                    ready: tasks[i].waker.ready || woken.contains(Waker { task: i as usize }),
                    ..tasks[i].waker
                },
                ..tasks[i]
            },
    )
}

/// Each task knows its number.
pub open spec fn numbered<T>(tasks: Seq<Task<T>>) -> bool {
    forall|i: int| 0 <= i < tasks.len() ==> (#[trigger] tasks[i]).waker.task == i
}

/// The task has a turn.
pub open spec fn has_turn<T>(t: Task<T>) -> bool {
    !t.completed && t.waker.ready
}

/// The tasks after one had its turn: it is polled with its flag cleared, it is done
/// where it is ready, and then those are woken that the poll woke.
pub open spec fn turn_taken<T: Future<Context<T, M>, Output = ()>, M>(
    t0: Seq<Task<T>>,
    c0: Context<T, M>,
    i: int,
    f: T,
    cm: Context<T, M>,
    r: Poll<()>,
    t1: Seq<Task<T>>,
    c1: Context<T, M>,
) -> bool {
    &&& T::polled(
        t0[i].future,
        Context { waker: Waker { task: i as usize }, ..c0 },
        f,
        cm,
        r,
    )
    &&& t1 == with_woken(
        t0.update(
            i,
            Task {
                future: f,
                waker: TaskWaker { ready: false, ..t0[i].waker },
                completed: r is Ready,
            },
        ),
        cm.woken@,
    )
    &&& c1.woken@.len() == 0
    &&& c1.waker == cm.waker
    &&& c1.reactor == cm.reactor
}

/// The tasks after it was one's turn, where it has one.
pub open spec fn task_polled<T: Future<Context<T, M>, Output = ()>, M>(
    t0: Seq<Task<T>>,
    c0: Context<T, M>,
    i: int,
    t1: Seq<Task<T>>,
    c1: Context<T, M>,
) -> bool {
    if has_turn(t0[i]) {
        exists|f: T, cm: Context<T, M>, r: Poll<()>| #[trigger]
            turn_taken(t0, c0, i, f, cm, r, t1, c1)
    } else {
        t1 == t0 && c1 == c0
    }
}

/// Each task has had its turn, in their order: `ts` and `cs` list what there was
/// before each turn, and at the end.
pub open spec fn all_polled<T: Future<Context<T, M>, Output = ()>, M>(
    ts: Seq<Seq<Task<T>>>,
    cs: Seq<Context<T, M>>,
    n: nat,
) -> bool {
    &&& ts.len() == n + 1
    &&& cs.len() == n + 1
    &&& forall|i: int|
        0 <= i < n ==> #[trigger] task_polled(ts[i], cs[i], i, ts[i + 1], cs[i + 1])
}

/// A round in which every task had its turn, from `t0` and `c0` to `t1` and `c1`.
pub open spec fn turns<T: Future<Context<T, M>, Output = ()>, M>(
    t0: Seq<Task<T>>,
    c0: Context<T, M>,
    t1: Seq<Task<T>>,
    c1: Context<T, M>,
) -> bool {
    exists|ts: Seq<Seq<Task<T>>>, cs: Seq<Context<T, M>>| #[trigger]
        all_polled(ts, cs, t0.len()) && ts[0] == t0 && cs[0] == c0 && ts.last() == t1
            && cs.last() == c1
}

/// Some task is not done.
pub open spec fn any_open<T>(tasks: Seq<Task<T>>) -> bool {
    exists|i: int| 0 <= i < tasks.len() && !(#[trigger] tasks[i]).completed
}

/// Some task of `t0` was not done, and is done in `t1`.
pub open spec fn any_finished<T>(t0: Seq<Task<T>>, t1: Seq<Task<T>>) -> bool {
    exists|i: int|
        0 <= i < t0.len() && !(#[trigger] t0[i]).completed && (#[trigger] t1[i]).completed
}

/// What tasks, waking and turns keep of a task.
proof fn lemma_turn<T: Future<Context<T, M>, Output = ()>, M>(
    t0: Seq<Task<T>>,
    c0: Context<T, M>,
    i: int,
    t1: Seq<Task<T>>,
    c1: Context<T, M>,
)
    requires
        0 <= i < t0.len(),
        task_polled(t0, c0, i, t1, c1),
        numbered(t0),
    ensures
        t1.len() == t0.len(),
        numbered(t1),
        forall|j: int|
            0 <= j < t0.len() && j != i ==> (#[trigger] t1[j]).completed == t0[j].completed
                && t1[j].future == t0[j].future && (t0[j].waker.ready ==> t1[j].waker.ready),
        t0[i].completed ==> t1[i].completed && t1[i].future == t0[i].future,
{
    if has_turn(t0[i]) {
        let (f, cm, r) = choose|f: T, cm: Context<T, M>, r: Poll<()>| #[trigger]
            turn_taken(t0, c0, i, f, cm, r, t1, c1);
        assert(turn_taken(t0, c0, i, f, cm, r, t1, c1));
    }
}

impl<T: Future<Context<T, M>, Output = ()>, M> Executor<T, M> {
    /// Tasks know their numbers, and nobody waits to be woken.
    pub open spec fn wf(&self) -> bool {
        &&& numbered(self.tasks@)
        &&& self.cx.woken@.len() == 0
    }

    /// No tasks.
    pub fn new() -> (r: Executor<T, M>)
        ensures
            r.wf(),
            r.tasks@.len() == 0,
            r.cx.reactor.servers@.len() == 0,
            r.cx.reactor.timers@.len() == 0,
            r.cx.reactor.tick == 0,
            r.cx.reactor.spawn_queue@.len() == 0,
    {
        Executor { tasks: Vec::new(), cx: Context::new() }
    }

    /// Starts a task.
    pub fn spawn(&mut self, future: T)
        requires
            old(self).wf(),
        ensures
            final(self).wf(),
            final(self).tasks@ == with_started(old(self).tasks@, seq![future]),
            final(self).cx == old(self).cx,
    {
        let n: usize = self.tasks.len();
        self.tasks.push(Task { future, waker: TaskWaker::new(n), completed: false });
        assert(self.tasks@ =~= with_started(old(self).tasks@, seq![future]));
    }

    /// Starts tasks while others run.
    pub fn spawner(&self) -> (r: Spawner)
        ensures
            r == (Spawner {  }),
    {
        Spawner {  }
    }

    /// Takes in the tasks that tasks have started.
    fn take_in(&mut self)
        requires
            old(self).wf(),
            old(self).tasks@.len() + old(self).cx.reactor.spawn_queue@.len() <= usize::MAX,
        ensures
            final(self).wf(),
            final(self).tasks@ == with_started(
                old(self).tasks@,
                old(self).cx.reactor.spawn_queue@,
            ),
            final(self).cx.reactor.spawn_queue@.len() == 0,
            final(self).cx.reactor.servers == old(self).cx.reactor.servers,
            final(self).cx.reactor.timers == old(self).cx.reactor.timers,
            final(self).cx.reactor.tick == old(self).cx.reactor.tick,
            final(self).cx.woken == old(self).cx.woken,
            final(self).cx.waker == old(self).cx.waker,
    {
        let mut rest: Vec<T> = self.cx.reactor.drain_spawns();
        let ghost queue = rest@;
        let n: usize = rest.len();
        let ghost t0 = self.tasks@;
        let ghost cx = self.cx;
        let mut i: usize = 0;
        assert(with_started(t0, queue.take(0)) =~= t0);
        while i < n
            invariant
                i <= n,
                n == queue.len(),
                t0.len() + n <= usize::MAX,
                rest@ == queue.skip(i as int),
                self.cx == cx,
                numbered(t0),
                numbered(self.tasks@),
                self.tasks@ == with_started(t0, queue.take(i as int)),
            decreases n - i,
        {
            let f: T = rest.remove(0);
            let k: usize = self.tasks.len();
            self.tasks.push(Task { future: f, waker: TaskWaker::new(k), completed: false });
            i = i + 1;
            assert(rest@ =~= queue.skip(i as int));
            assert(self.tasks@ =~= with_started(t0, queue.take(i as int)));
        }
        assert(queue.take(n as int) =~= queue);
    }

    /// Wakes the tasks that were woken since.
    fn apply_wakes(&mut self)
        requires
            numbered(old(self).tasks@),
        ensures
            final(self).tasks@ == with_woken(old(self).tasks@, old(self).cx.woken@),
            numbered(final(self).tasks@),
            final(self).cx.woken@.len() == 0,
            final(self).cx.waker == old(self).cx.waker,
            final(self).cx.reactor == old(self).cx.reactor,
    {
        let n: usize = self.cx.woken.len();
        let ghost woken = self.cx.woken@;
        let ghost t0 = self.tasks@;
        let mut i: usize = 0;
        assert(self.tasks@ =~= with_woken(t0, woken.take(0)));
        while i < n
            invariant
                i <= n,
                n == woken.len(),
                self.cx == old(self).cx,
                self.cx.woken@ == woken,
                numbered(t0),
                numbered(self.tasks@),
                self.tasks@ == with_woken(t0, woken.take(i as int)),
            decreases n - i,
        {
            let w: Waker = self.cx.woken[i];
            let ghost before = self.tasks@;
            if w.task < self.tasks.len() {
                w.wake(&mut self.tasks[w.task].waker);
            }
            proof {
                let next = woken.take(i + 1);
                assert(next =~= woken.take(i as int).push(w));
                assert forall|j: int| 0 <= j < t0.len() implies #[trigger] self.tasks@[j]
                    == with_woken(t0, next)[j] by {
                    let x = Waker { task: j as usize };
                    assert(before[j] == with_woken(t0, woken.take(i as int))[j]);
                    assert(before[j].waker.task == j);
                    if woken.take(i as int).contains(x) {
                        let k = choose|k: int|
                            0 <= k < woken.take(i as int).len() && woken.take(i as int)[k] == x;
                        assert(next[k] == x);
                    }
                    if w.task == j {
                        assert(next[i as int] == x);
                    }
                    if next.contains(x) && w.task != j {
                        let k = choose|k: int| 0 <= k < next.len() && next[k] == x;
                        assert(woken.take(i as int)[k] == x);
                    }
                }
                assert(self.tasks@ =~= with_woken(t0, next));
            }
            i = i + 1;
        }
        assert(woken.take(n as int) =~= woken);
        self.cx.woken = Vec::new();
    }

    /// Gives one task its turn, where it has one.
    fn poll_task(&mut self, i: usize)
        requires
            old(self).wf(),
            i < old(self).tasks@.len(),
        ensures
            final(self).wf(),
            task_polled(
                old(self).tasks@,
                old(self).cx,
                i as int,
                final(self).tasks@,
                final(self).cx,
            ),
            final(self).tasks@.len() == old(self).tasks@.len(),
    {
        if self.tasks[i].completed || !self.tasks[i].waker.is_ready() {
            return;
        }
        let ghost t0 = self.tasks@;
        let ghost c0 = self.cx;
        self.tasks[i].waker.clear();
        self.cx.waker = Waker { task: i };
        let r: Poll<()> = self.tasks[i].future.poll(&mut self.cx);
        if let Poll::Ready(_) = r {
            self.tasks[i].completed = true;
        }
        let ghost f = self.tasks@[i as int].future;
        let ghost cm = self.cx;
        proof {
            assert(self.tasks@ =~= t0.update(
                i as int,
                Task {
                    future: f,
                    waker: TaskWaker { ready: false, ..t0[i as int].waker },
                    completed: r is Ready,
                },
            ));
        }
        self.apply_wakes();
        assert(turn_taken(t0, c0, i as int, f, cm, r, self.tasks@, self.cx));
    }

    /// Gives every task its turn; whether some task was not done, and whether one got
    /// done.
    pub fn poll_tasks(&mut self) -> (r: (bool, bool))
        requires
            old(self).wf(),
        ensures
            final(self).wf(),
            turns(old(self).tasks@, old(self).cx, final(self).tasks@, final(self).cx),
            final(self).tasks@.len() == old(self).tasks@.len(),
            r.0 == any_open(old(self).tasks@),
            r.1 == any_finished(old(self).tasks@, final(self).tasks@),
    {
        let n: usize = self.tasks.len();
        let ghost t0 = self.tasks@;
        let ghost mut ts: Seq<Seq<Task<T>>> = seq![self.tasks@];
        let ghost mut cs: Seq<Context<T, M>> = seq![self.cx];
        let ghost mut open: int = 0;
        let ghost mut finished: int = 0;
        let mut any_pending: bool = false;
        let mut made_progress: bool = false;
        let mut i: usize = 0;
        while i < n
            invariant
                i <= n,
                n == t0.len(),
                self.wf(),
                self.tasks@.len() == n,
                ts.len() == i + 1,
                cs.len() == i + 1,
                ts[0] == t0,
                cs[0] == old(self).cx,
                ts.last() == self.tasks@,
                cs.last() == self.cx,
                forall|j: int|
                    0 <= j < i ==> #[trigger] task_polled(ts[j], cs[j], j, ts[j + 1], cs[j + 1]),
                forall|j: int| i <= j < n ==> (#[trigger] self.tasks@[j]).completed
                    == t0[j].completed,
                any_pending ==> 0 <= open < i && !t0[open].completed,
                !any_pending ==> forall|j: int| 0 <= j < i ==> (#[trigger] t0[j]).completed,
                made_progress ==> 0 <= finished < i && !t0[finished].completed
                    && self.tasks@[finished].completed,
                !made_progress ==> forall|j: int|
                    0 <= j < i ==> (#[trigger] self.tasks@[j]).completed == t0[j].completed,
            decreases n - i,
        {
            let ghost before = self.tasks@;
            let ghost c0 = self.cx;
            let was_open: bool = !self.tasks[i].completed;
            assert(self.tasks@[i as int].completed == t0[i as int].completed);
            self.poll_task(i);
            proof {
                lemma_turn(before, c0, i as int, self.tasks@, self.cx);
                let ts0 = ts;
                let cs0 = cs;
                ts = ts.push(self.tasks@);
                cs = cs.push(self.cx);
                assert forall|j: int| 0 <= j < i + 1 implies #[trigger] task_polled(
                    ts[j],
                    cs[j],
                    j,
                    ts[j + 1],
                    cs[j + 1],
                ) by {
                    if j < i {
                        assert(task_polled(ts0[j], cs0[j], j, ts0[j + 1], cs0[j + 1]));
                    }
                }
            }
            if was_open {
                any_pending = true;
                proof {
                    open = i as int;
                }
                if self.tasks[i].completed {
                    made_progress = true;
                    proof {
                        finished = i as int;
                    }
                }
            }
            i = i + 1;
        }
        proof {
            assert(all_polled(ts, cs, t0.len()));
            if made_progress {
                assert(!t0[finished].completed && self.tasks@[finished].completed);
            }
        }
        (any_pending, made_progress)
    }

    /// Goes on to the next tick, and wakes the tasks whose timers have come; whether
    /// there is such a task.
    pub fn tick(&mut self) -> (r: bool)
        requires
            old(self).wf(),
        ensures
            final(self).wf(),
            ticked(*old(self), *final(self), r),
    {
        let woken: Vec<Waker> = self.cx.reactor.poll_timers();
        let any: bool = woken.len() > 0;
        self.cx.woken = woken;
        self.apply_wakes();
        any
    }

    /// Hands a message to the server in a slot, and wakes the task that waits for it;
    /// whether one waits.
    pub fn deliver(&mut self, id: SlotId, message: M) -> (r: bool)
        requires
            old(self).wf(),
            id < old(self).cx.reactor.servers@.len(),
            old(self).cx.reactor.servers@[id as int].active,
        ensures
            final(self).wf(),
            ({
                let slot = old(self).cx.reactor.server_slots()[id as int];
                &&& r == (slot.waker is Some)
                &&& final(self).cx.reactor.server_slots()
                    == old(self).cx.reactor.server_slots().update(
                    id as int,
                    ServerModel { queue: slot.queue.push(message), waker: None, ..slot },
                )
                &&& final(self).tasks@ == with_woken(
                    old(self).tasks@,
                    match slot.waker {
                        Some(w) => seq![w],
                        None => seq![],
                    },
                )
            }),
            final(self).cx.reactor.timers == old(self).cx.reactor.timers,
            final(self).cx.reactor.tick == old(self).cx.reactor.tick,
            final(self).cx.reactor.spawn_queue == old(self).cx.reactor.spawn_queue,
            final(self).cx.waker == old(self).cx.waker,
    {
        let waker: Option<Waker> = self.cx.reactor.deliver(id, message);
        let mut woken: Vec<Waker> = Vec::new();
        if let Some(w) = waker {
            woken.push(w);
            assert(woken@ =~= seq![w]);
        } else {
            assert(woken@ =~= seq![]);
        }
        self.cx.woken = woken;
        self.apply_wakes();
        waker.is_some()
    }

    /// One round: tasks that were started are taken in, every task has its turn, and
    /// the timers go on. The caller fetches the messages of the servers, and gives the
    /// processor away where nothing happened, before the next round.
    pub fn run(&mut self) -> (r: Round)
        requires
            old(self).wf(),
            old(self).tasks@.len() + old(self).cx.reactor.spawn_queue@.len() <= usize::MAX,
        ensures
            final(self).wf(),
            exists|entered: Self, polled: Self| #[trigger]
                round_done(*old(self), entered, polled, *final(self), r),
    {
        let ghost before = *self;
        self.take_in();
        let ghost entered = *self;
        let (any_pending, made_progress): (bool, bool) = self.poll_tasks();
        let ghost polled = *self;
        if !any_pending {
            assert(round_done(before, entered, polled, *self, Round::Finished));
            return Round::Finished;
        }
        let woke: bool = self.tick();
        let r: Round = if made_progress || woke {
            Round::Progress
        } else {
            Round::Idle
        };
        assert(ticked(polled, *self, woke));
        assert(round_done(before, entered, polled, *self, r));
        r
    }
}

/// The tasks that were started are taken in, and nothing else changes.
pub open spec fn taken_in<T, M>(e: Executor<T, M>, entered: Executor<T, M>) -> bool {
    &&& entered.tasks@ == with_started(e.tasks@, e.cx.reactor.spawn_queue@)
    &&& entered.cx.reactor.spawn_queue@.len() == 0
    &&& entered.cx.reactor.servers == e.cx.reactor.servers
    &&& entered.cx.reactor.timers == e.cx.reactor.timers
    &&& entered.cx.reactor.tick == e.cx.reactor.tick
    &&& entered.cx.woken == e.cx.woken
    &&& entered.cx.waker == e.cx.waker
}

/// The timers go on to the next tick, and wake tasks.
pub open spec fn ticked<T, M>(e: Executor<T, M>, after: Executor<T, M>, woke: bool) -> bool {
    let r0 = e.cx.reactor;
    let r1 = after.cx.reactor;
    let woken = reactor::fired(r0.timers@, r1.tick);
    &&& r1.tick == reactor::later(r0.tick, 1)
    &&& r1.timers@ == reactor::after_firing(r0.timers@, r1.tick)
    &&& r1.servers == r0.servers
    &&& r1.spawn_queue == r0.spawn_queue
    &&& after.tasks@ == with_woken(e.tasks@, woken)
    &&& woke == (woken.len() > 0)
}

/// A round: tasks are taken in, have their turns, and the timers go on unless every
/// task was done.
pub open spec fn round_done<T: Future<Context<T, M>, Output = ()>, M>(
    before: Executor<T, M>,
    entered: Executor<T, M>,
    polled: Executor<T, M>,
    after: Executor<T, M>,
    r: Round,
) -> bool {
    &&& taken_in(before, entered)
    &&& turns(entered.tasks@, entered.cx, polled.tasks@, polled.cx)
    &&& if !any_open(entered.tasks@) {
        r == Round::Finished && after == polled
    } else {
        exists|woke: bool| #[trigger]
            ticked(polled, after, woke) && r == (if any_finished(entered.tasks@, polled.tasks@)
                || woke {
                Round::Progress
            } else {
                Round::Idle
            })
    }
}

/// What a number of turns keep of a task that is done.
proof fn lemma_turns_keep<T: Future<Context<T, M>, Output = ()>, M>(
    ts: Seq<Seq<Task<T>>>,
    cs: Seq<Context<T, M>>,
    n: nat,
    k: nat,
    i: int,
)
    requires
        all_polled(ts, cs, n),
        ts[0].len() == n,
        numbered(ts[0]),
        k <= n,
        0 <= i < n,
        ts[0][i].completed,
    ensures
        ts[k as int].len() == n,
        numbered(ts[k as int]),
        ts[k as int][i].completed,
        ts[k as int][i].future == ts[0][i].future,
    decreases k,
{
    if k > 0 {
        let m = k - 1;
        lemma_turns_keep(ts, cs, n, m as nat, i);
        assert(task_polled(ts[m], cs[m], m, ts[m + 1], cs[m + 1]));
        lemma_turn(ts[m], cs[m], m, ts[k as int], cs[k as int]);
    }
}

/// A task that is done is never polled again, whatever the others do.
pub proof fn law_done_is_done<T: Future<Context<T, M>, Output = ()>, M>(
    t0: Seq<Task<T>>,
    c0: Context<T, M>,
    t1: Seq<Task<T>>,
    c1: Context<T, M>,
    i: int,
)
    requires
        turns(t0, c0, t1, c1),
        numbered(t0),
        0 <= i < t0.len(),
        t0[i].completed,
    ensures
        t1[i].completed,
        t1[i].future == t0[i].future,
{
    let (ts, cs) = choose|ts: Seq<Seq<Task<T>>>, cs: Seq<Context<T, M>>| #[trigger]
        all_polled(ts, cs, t0.len()) && ts[0] == t0 && cs[0] == c0 && ts.last() == t1
            && cs.last() == c1;
    lemma_turns_keep(ts, cs, t0.len(), t0.len(), i);
}

/// What no turns keep where no task is open.
proof fn lemma_no_turns<T: Future<Context<T, M>, Output = ()>, M>(
    ts: Seq<Seq<Task<T>>>,
    cs: Seq<Context<T, M>>,
    n: nat,
    k: nat,
)
    requires
        all_polled(ts, cs, n),
        ts[0].len() == n,
        !any_open(ts[0]),
        k <= n,
    ensures
        ts[k as int] == ts[0],
        cs[k as int] == cs[0],
    decreases k,
{
    if k > 0 {
        let m = k - 1;
        lemma_no_turns(ts, cs, n, m as nat);
        assert(task_polled(ts[m], cs[m], m, ts[m + 1], cs[m + 1]));
        assert(ts[0][m].completed);
    }
}

/// A round says that all is finished exactly where every task is done, those included
/// that were started meanwhile; and then it has done nothing else.
pub proof fn law_finished_means_done<T: Future<Context<T, M>, Output = ()>, M>(
    before: Executor<T, M>,
    entered: Executor<T, M>,
    polled: Executor<T, M>,
    after: Executor<T, M>,
    r: Round,
)
    requires
        round_done(before, entered, polled, after, r),
    ensures
        r == Round::Finished <==> !any_open(
            with_started(before.tasks@, before.cx.reactor.spawn_queue@),
        ),
        r == Round::Finished ==> after.tasks@ == before.tasks@ && after.cx.reactor.tick
            == before.cx.reactor.tick && before.cx.reactor.spawn_queue@.len() == 0,
{
    if r == Round::Finished {
        let (ts, cs) = choose|ts: Seq<Seq<Task<T>>>, cs: Seq<Context<T, M>>| #[trigger]
            all_polled(ts, cs, entered.tasks@.len()) && ts[0] == entered.tasks@ && cs[0]
                == entered.cx && ts.last() == polled.tasks@ && cs.last() == polled.cx;
        lemma_no_turns(ts, cs, entered.tasks@.len(), entered.tasks@.len());
        if before.cx.reactor.spawn_queue@.len() > 0 {
            assert(!entered.tasks@[before.tasks@.len() as int].completed);
        }
        assert(entered.tasks@ =~= before.tasks@);
    }
}

/// A task that nobody has woken is left alone at its turn, and its flag is cleared
/// before it is polled: it is polled again only where it was woken since.
pub proof fn law_sleepers_are_not_polled<T: Future<Context<T, M>, Output = ()>, M>(
    t0: Seq<Task<T>>,
    c0: Context<T, M>,
    i: int,
    f: T,
    cm: Context<T, M>,
    r: Poll<()>,
    t1: Seq<Task<T>>,
    c1: Context<T, M>,
)
    requires
        0 <= i < t0.len(),
        numbered(t0),
        i <= usize::MAX,
    ensures
        !has_turn(t0[i]) && task_polled(t0, c0, i, t1, c1) ==> t1 == t0 && c1 == c0,
        turn_taken(t0, c0, i, f, cm, r, t1, c1) ==> t1[i].waker.ready == cm.woken@.contains(
            Waker { task: i as usize },
        ),
{
}

/// No wake is lost: a task that is not done and that a poll has woken has a turn afterwards,
/// also where it woke itself; and only those have a new turn that were woken.
pub proof fn law_woken_get_a_turn<T: Future<Context<T, M>, Output = ()>, M>(
    t0: Seq<Task<T>>,
    c0: Context<T, M>,
    i: int,
    f: T,
    cm: Context<T, M>,
    r: Poll<()>,
    t1: Seq<Task<T>>,
    c1: Context<T, M>,
    j: int,
)
    requires
        0 <= i < t0.len(),
        0 <= j < t0.len(),
        j <= usize::MAX,
        turn_taken(t0, c0, i, f, cm, r, t1, c1),
    ensures
        t1.len() == t0.len(),
        j != i ==> t1[j].completed == t0[j].completed && t1[j].future == t0[j].future,
        j == i ==> t1[j].completed == (r is Ready) && t1[j].future == f,
        cm.woken@.contains(Waker { task: j as usize }) ==> t1[j].waker.ready,
        j != i && t0[j].waker.ready ==> t1[j].waker.ready,
        t1[j].waker.ready ==> cm.woken@.contains(Waker { task: j as usize }) || (j != i
            && t0[j].waker.ready),
{
}

/// A task that was started has a turn at once, and stands behind the earlier ones, in the
/// order of the starts.
pub proof fn law_started_get_a_turn<T>(tasks: Seq<Task<T>>, futures: Seq<T>, i: int)
    requires
        0 <= i < futures.len(),
    ensures
        ({
            let t = with_started(tasks, futures);
            &&& t.len() == tasks.len() + futures.len()
            &&& t[tasks.len() + i].future == futures[i]
            &&& !t[tasks.len() + i].completed
            &&& t[tasks.len() + i].waker.ready
            &&& forall|j: int| 0 <= j < tasks.len() ==> #[trigger] t[j] == tasks[j]
        }),
{
}

/// A timer that has come by the next tick gives the task that waits for it a turn.
pub proof fn law_timer_gives_a_turn<T, M>(
    e: Executor<T, M>,
    after: Executor<T, M>,
    woke: bool,
    k: int,
    j: int,
)
    requires
        ticked(e, after, woke),
        e.cx.reactor.tick < u64::MAX,
        0 <= k < e.cx.reactor.timers@.len(),
        e.cx.reactor.timers@[k].active,
        e.cx.reactor.timers@[k].waker == Some(Waker { task: j as usize }),
        e.cx.reactor.timers@[k].deadline_tick <= e.cx.reactor.tick + 1,
        0 <= j < e.tasks@.len(),
        j <= usize::MAX,
    ensures
        after.cx.reactor.tick == e.cx.reactor.tick + 1,
        after.tasks@[j].waker.ready,
        after.tasks@[j].completed == e.tasks@[j].completed,
        woke,
{
    reactor::law_timer_fires_once(e.cx.reactor.timers@, k, after.cx.reactor.tick, 0);
    let woken = reactor::fired(e.cx.reactor.timers@, after.cx.reactor.tick);
    assert(woken.contains(Waker { task: j as usize }));
}

// ---------------------------------------------------------------------------
// The rounds end
// ---------------------------------------------------------------------------

/// One round of a run: the executor before and after it, and what it said.
pub struct Step<T, M> {
    pub before: Executor<T, M>,
    pub after: Executor<T, M>,
    pub round: Round,
}

/// A step is a round, in which no task is taken in.
pub open spec fn is_step<T: Future<Context<T, M>, Output = ()>, M>(s: Step<T, M>) -> bool {
    &&& numbered(s.before.tasks@)
    &&& s.before.cx.reactor.spawn_queue@.len() == 0
    &&& exists|entered: Executor<T, M>, polled: Executor<T, M>| #[trigger]
        round_done(s.before, entered, polled, s.after, s.round)
}

/// Between two rounds tasks may be woken, and nothing else happens to them.
pub open spec fn only_woken<T>(t0: Seq<Task<T>>, t1: Seq<Task<T>>) -> bool {
    &&& t1.len() == t0.len()
    &&& forall|i: int|
        0 <= i < t0.len() ==> (#[trigger] t1[i]).future == t0[i].future && t1[i].completed
            == t0[i].completed && (t0[i].waker.ready ==> t1[i].waker.ready)
}

/// Rounds that follow each other.
pub open spec fn is_run<T: Future<Context<T, M>, Output = ()>, M>(run: Seq<Step<T, M>>) -> bool {
    &&& forall|k: int| 0 <= k < run.len() ==> is_step(#[trigger] run[k])
    &&& forall|k: int|
        0 < k < run.len() ==> only_woken(run[k - 1].after.tasks@, (#[trigger] run[k]).before.tasks@)
}

/// A task is done, or it has a turn.
pub open spec fn done_or_ready<T>(t: Task<T>) -> bool {
    t.completed || t.waker.ready
}

/// Task `i` is done, or has been woken, before one of the `b` rounds from `k` on.
pub open spec fn woken_from<T, M>(run: Seq<Step<T, M>>, k: int, b: nat, i: int) -> bool {
    exists|m: int| k <= m < k + b && done_or_ready(#[trigger] run[m].before.tasks@[i])
}

/// Every task that is not done is woken before one of the next `b` rounds.
pub open spec fn woken_within<T, M>(run: Seq<Step<T, M>>, b: nat) -> bool {
    forall|k: int, i: int|
        0 <= k && k + b <= run.len() && 0 <= i < run[k].before.tasks@.len() ==> #[trigger]
            woken_from(run, k, b, i)
}

/// Futures that become ready after finitely many polls: `left` bounds how often one is
/// still not ready.
pub open spec fn becomes_ready<T: Future<Context<T, M>, Output = ()>, M>(
    left: spec_fn(T) -> nat,
) -> bool {
    forall|f: T, c0: Context<T, M>, f1: T, c1: Context<T, M>, r: Poll<()>| #[trigger]
        T::polled(f, c0, f1, c1, r) ==> r is Ready || left(f1) < left(f)
}

/// From one state of a task to a later one: what is done stays done, and what is not
/// comes no further away from it.
pub open spec fn nearer<T>(t0: Task<T>, t1: Task<T>, left: spec_fn(T) -> nat) -> bool {
    &&& t0.completed ==> t1.completed
    &&& t1.completed || left(t1.future) <= left(t0.future)
}

/// The turns of a round bring a task nearer, by a poll where it has a turn.
proof fn lemma_turns_bring_nearer<T: Future<Context<T, M>, Output = ()>, M>(
    ts: Seq<Seq<Task<T>>>,
    cs: Seq<Context<T, M>>,
    n: nat,
    k: nat,
    i: int,
    left: spec_fn(T) -> nat,
)
    requires
        all_polled(ts, cs, n),
        ts[0].len() == n,
        numbered(ts[0]),
        becomes_ready::<T, M>(left),
        k <= n,
        0 <= i < n,
    ensures
        ts[k as int].len() == n,
        numbered(ts[k as int]),
        nearer(ts[0][i], ts[k as int][i], left),
        k <= i ==> ts[k as int][i].future == ts[0][i].future && ts[k as int][i].completed
            == ts[0][i].completed && (ts[0][i].waker.ready ==> ts[k as int][i].waker.ready),
        k > i && has_turn(ts[0][i]) ==> ts[k as int][i].completed || left(ts[k as int][i].future)
            < left(ts[0][i].future),
    decreases k,
{
    if k > 0 {
        let m = k - 1;
        lemma_turns_bring_nearer(ts, cs, n, m as nat, i, left);
        assert(task_polled(ts[m], cs[m], m, ts[m + 1], cs[m + 1]));
        lemma_turn(ts[m], cs[m], m, ts[k as int], cs[k as int]);
        if m == i && has_turn(ts[m][i]) {
            let (t0, t1, c0, c1) = (ts[m], ts[k as int], cs[m], cs[k as int]);
            let (f, cm, r) = choose|f: T, cm: Context<T, M>, r: Poll<()>| #[trigger]
                turn_taken(t0, c0, i, f, cm, r, t1, c1);
            assert(turn_taken(t0, c0, i, f, cm, r, t1, c1));
            assert(t1[i].future == f && t1[i].completed == (r is Ready));
        }
    }
}

/// A round brings a task nearer, by a poll where it has a turn.
proof fn lemma_step_brings_nearer<T: Future<Context<T, M>, Output = ()>, M>(
    s: Step<T, M>,
    i: int,
    left: spec_fn(T) -> nat,
)
    requires
        is_step(s),
        becomes_ready::<T, M>(left),
        0 <= i < s.before.tasks@.len(),
    ensures
        s.after.tasks@.len() == s.before.tasks@.len(),
        nearer(s.before.tasks@[i], s.after.tasks@[i], left),
        has_turn(s.before.tasks@[i]) ==> s.after.tasks@[i].completed || left(
            s.after.tasks@[i].future,
        ) < left(s.before.tasks@[i].future),
{
    let (entered, polled) = choose|entered: Executor<T, M>, polled: Executor<T, M>| #[trigger]
        round_done(s.before, entered, polled, s.after, s.round);
    assert(round_done(s.before, entered, polled, s.after, s.round));
    assert(entered.tasks@ =~= s.before.tasks@);
    let n = entered.tasks@.len();
    let (ts, cs) = choose|ts: Seq<Seq<Task<T>>>, cs: Seq<Context<T, M>>| #[trigger]
        all_polled(ts, cs, n) && ts[0] == entered.tasks@ && cs[0] == entered.cx && ts.last()
            == polled.tasks@ && cs.last() == polled.cx;
    lemma_turns_bring_nearer(ts, cs, n, n, i, left);
    if any_open(entered.tasks@) {
        let woke = choose|woke: bool| #[trigger] ticked(polled, s.after, woke);
        assert(ticked(polled, s.after, woke));
    }
}

/// From round to round a task comes nearer, by a poll where it had a turn.
proof fn lemma_run_brings_nearer<T: Future<Context<T, M>, Output = ()>, M>(
    run: Seq<Step<T, M>>,
    k: int,
    m: int,
    i: int,
    left: spec_fn(T) -> nat,
)
    requires
        is_run(run),
        becomes_ready::<T, M>(left),
        0 <= k <= m < run.len(),
        0 <= i < run[k].before.tasks@.len(),
    ensures
        run[m].before.tasks@.len() == run[k].before.tasks@.len(),
        nearer(run[k].before.tasks@[i], run[m].before.tasks@[i], left),
        k < m && has_turn(run[k].before.tasks@[i]) ==> run[m].before.tasks@[i].completed || left(
            run[m].before.tasks@[i].future,
        ) < left(run[k].before.tasks@[i].future),
    decreases m - k,
{
    if k < m {
        lemma_run_brings_nearer(run, k, m - 1, i, left);
        lemma_step_brings_nearer(run[m - 1], i, left);
        assert(only_woken(run[m - 1].after.tasks@, run[m].before.tasks@));
        assert(is_step(run[m - 1]));
        let t = run[m].before.tasks@[i];
        assert(t.future == run[m - 1].after.tasks@[i].future);
    }
}

/// How many polls a task still needs at most.
pub open spec fn polls_left<T>(t: Task<T>, left: spec_fn(T) -> nat) -> nat {
    if t.completed {
        0
    } else {
        left(t.future) + 1
    }
}

/// In `b` rounds a task is polled, or it was done.
#[verifier::rlimit(50)]
#[verifier::spinoff_prover]
proof fn lemma_window<T: Future<Context<T, M>, Output = ()>, M>(
    run: Seq<Step<T, M>>,
    b: nat,
    k: int,
    i: int,
    left: spec_fn(T) -> nat,
)
    requires
        is_run(run),
        becomes_ready::<T, M>(left),
        woken_within(run, b),
        b > 0,
        0 <= k,
        k + b < run.len(),
        0 <= i < run[k].before.tasks@.len(),
    ensures
        run[k + b].before.tasks@.len() == run[k].before.tasks@.len(),
        ({
            let p = polls_left(run[k].before.tasks@[i], left);
            let q = polls_left(run[k + b].before.tasks@[i], left);
            q == 0 || q < p
        }),
{
    assert(woken_from(run, k, b, i));
    let m = choose|m: int| k <= m < k + b && done_or_ready(#[trigger] run[m].before.tasks@[i]);
    lemma_run_brings_nearer(run, k, m, i, left);
    lemma_run_brings_nearer(run, m, k + b, i, left);
}

/// `t` is the state of a task every so many rounds: it needs a poll less each time.
proof fn lemma_polls_add_up(t: spec_fn(nat) -> nat, n: nat, j: nat)
    requires
        t(0) <= n,
        forall|x: nat| x < j ==> #[trigger] t(x + 1) == 0 || t(x + 1) < t(x),
    ensures
        t(j) == 0 || t(j) + j <= n,
    decreases j,
{
    if j > 0 {
        let x = (j - 1) as nat;
        lemma_polls_add_up(t, n, x);
        assert(t(x + 1) == 0 || t(x + 1) < t(x));
    }
}

/// After `n` times `b` rounds, that is at round `e`, a task that needs at most `n` polls
/// is done.
proof fn lemma_task_ends<T: Future<Context<T, M>, Output = ()>, M>(
    run: Seq<Step<T, M>>,
    b: nat,
    n: nat,
    e: int,
    i: int,
    left: spec_fn(T) -> nat,
)
    requires
        is_run(run),
        becomes_ready::<T, M>(left),
        woken_within(run, b),
        b > 0,
        e == n * b,
        e < run.len(),
        0 <= i < run[0].before.tasks@.len(),
        polls_left(run[0].before.tasks@[i], left) <= n,
    ensures
        run[e].before.tasks@.len() == run[0].before.tasks@.len(),
        run[e].before.tasks@[i].completed,
{
    let t = |x: nat| polls_left(run[x * b as int].before.tasks@[i], left);
    assert(0nat * b == 0) by (nonlinear_arith);
    assert(0 <= e) by (nonlinear_arith)
        requires
            e == n * b,
    ;
    lemma_run_brings_nearer(run, 0, e, i, left);
    assert forall|x: nat| x < n implies #[trigger] t(x + 1) == 0 || t(x + 1) < t(x) by {
        let k = x * b as int;
        assert(0 <= k && (x + 1) * b == k + b && k + b <= e) by (nonlinear_arith)
            requires
                x < n,
                k == x * b,
                e == n * b,
        ;
        lemma_run_brings_nearer(run, 0, k, i, left);
        lemma_window(run, b, k, i, left);
        assert((x + 1) as nat * b as int == k + b);
    }
    lemma_polls_add_up(t, n, n);
    assert(t(n) == polls_left(run[e].before.tasks@[i], left));
}

/// The rounds end. Where every task is done after at most `n` polls, and every task that
/// is not done is woken before one of the next `b` rounds, then after `n` times `b`
/// rounds every task is done, and the next round says so.
pub proof fn law_rounds_end<T: Future<Context<T, M>, Output = ()>, M>(
    run: Seq<Step<T, M>>,
    b: nat,
    n: nat,
    left: spec_fn(T) -> nat,
)
    requires
        is_run(run),
        becomes_ready::<T, M>(left),
        woken_within(run, b),
        b > 0,
        n * b < run.len(),
        forall|i: int|
            0 <= i < run[0].before.tasks@.len() ==> polls_left(
                #[trigger] run[0].before.tasks@[i],
                left,
            ) <= n,
    ensures
        run[(n * b) as int].before.tasks@.len() == run[0].before.tasks@.len(),
        !any_open(run[(n * b) as int].before.tasks@),
        run[(n * b) as int].round == Round::Finished,
{
    let e = (n * b) as int;
    let s = run[e];
    assert(0 <= e) by (nonlinear_arith)
        requires
            e == n * b,
    ;
    assert(is_step(s));
    if run[0].before.tasks@.len() == 0 {
        lemma_no_tasks(run, e);
    }
    assert forall|i: int| 0 <= i < run[0].before.tasks@.len() implies s.before.tasks@.len()
        == run[0].before.tasks@.len() && (#[trigger] s.before.tasks@[i]).completed by {
        assert(polls_left(run[0].before.tasks@[i], left) <= n);
        lemma_task_ends(run, b, n, e, i, left);
    }
    if run[0].before.tasks@.len() > 0 {
        assert(s.before.tasks@[0].completed);
    }
    let (entered, polled) = choose|entered: Executor<T, M>, polled: Executor<T, M>| #[trigger]
        round_done(s.before, entered, polled, s.after, s.round);
    assert(with_started(s.before.tasks@, s.before.cx.reactor.spawn_queue@) =~= s.before.tasks@);
    law_finished_means_done(s.before, entered, polled, s.after, s.round);
}

/// Without tasks there are none later.
proof fn lemma_no_tasks<T: Future<Context<T, M>, Output = ()>, M>(run: Seq<Step<T, M>>, k: int)
    requires
        is_run(run),
        0 <= k < run.len(),
        run[0].before.tasks@.len() == 0,
    ensures
        run[k].before.tasks@.len() == 0,
    decreases k,
{
    if k > 0 {
        lemma_no_tasks(run, k - 1);
        let s = run[k - 1];
        assert(is_step(s));
        let (entered, polled) = choose|entered: Executor<T, M>, polled: Executor<T, M>| #[trigger]
            round_done(s.before, entered, polled, s.after, s.round);
        assert(entered.tasks@ =~= s.before.tasks@);
        law_finished_means_done(s.before, entered, polled, s.after, s.round);
        assert(only_woken(s.after.tasks@, run[k].before.tasks@));
    }
}

} // verus!
