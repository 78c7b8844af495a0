use std::cell::Cell;
use std::rc::Rc;

use beetos_kernel::async_rt::combinators::{join, join3, join_all, select, Either};
use beetos_kernel::async_rt::context::Context;
use beetos_kernel::async_rt::executor::{Executor, Round};
use beetos_kernel::async_rt::reactor::{Reactor, Receive};
use beetos_kernel::async_rt::server::{AsyncServer, RecvError, RecvStep};
use beetos_kernel::async_rt::timer::Timer;
use beetos_kernel::async_rt::waker::{TaskWaker, Waker};
use beetos_kernel::async_rt::{Future, Poll};

/// Is ready after it was polled a number of times.
struct CountdownFuture {
    remaining: usize,
    value: usize,
}

impl CountdownFuture {
    fn new(polls_needed: usize, value: usize) -> Self {
        Self { remaining: polls_needed, value }
    }
}

impl Future<TaskWaker> for CountdownFuture {
    type Output = usize;

    fn polled(_: Self, _: TaskWaker, _: Self, _: TaskWaker, _: Poll<usize>) -> bool {
        unreachable!()
    }

    fn poll(&mut self, cx: &mut TaskWaker) -> Poll<usize> {
        if self.remaining == 0 {
            Poll::Ready(self.value)
        } else {
            self.remaining -= 1;
            let waker = cx.waker();
            waker.wake_by_ref(cx);
            Poll::Pending
        }
    }
}

/// Is never ready.
struct NeverFuture;

impl Future<TaskWaker> for NeverFuture {
    type Output = ();

    fn polled(_: Self, _: TaskWaker, _: Self, _: TaskWaker, _: Poll<()>) -> bool {
        unreachable!()
    }

    fn poll(&mut self, _cx: &mut TaskWaker) -> Poll<()> {
        Poll::Pending
    }
}

/// Is ready at once.
struct ReadyFuture<T>(Option<T>);

fn ready<T>(value: T) -> ReadyFuture<T> {
    ReadyFuture(Some(value))
}

impl<T> Future<TaskWaker> for ReadyFuture<T> {
    type Output = T;

    fn polled(_: Self, _: TaskWaker, _: Self, _: TaskWaker, _: Poll<T>) -> bool {
        unreachable!()
    }

    fn poll(&mut self, _cx: &mut TaskWaker) -> Poll<T> {
        match self.0.take() {
            Some(v) => Poll::Ready(v),
            None => panic!("polled after it was ready"),
        }
    }
}

fn poll_once<F: Future<TaskWaker>>(f: &mut F) -> Poll<F::Output> {
    let mut tw = TaskWaker::new(0);
    f.poll(&mut tw)
}

/// Any of the above, with numbers.
enum Item {
    Countdown(CountdownFuture),
    Ready(ReadyFuture<usize>),
}

impl Future<TaskWaker> for Item {
    type Output = usize;

    fn polled(_: Self, _: TaskWaker, _: Self, _: TaskWaker, _: Poll<usize>) -> bool {
        unreachable!()
    }

    fn poll(&mut self, cx: &mut TaskWaker) -> Poll<usize> {
        match self {
            Item::Countdown(f) => f.poll(cx),
            Item::Ready(f) => f.poll(cx),
        }
    }
}

#[test]
fn waker_starts_ready() {
    let tw = TaskWaker::new(0);
    assert!(tw.is_ready());
}

#[test]
fn waker_clear_and_wake() {
    let mut tw = TaskWaker::new(0);
    tw.clear();
    assert!(!tw.is_ready());

    let waker = tw.waker();
    waker.wake_by_ref(&mut tw);
    assert!(tw.is_ready());
}

#[test]
fn waker_wake_by_value_sets_flag() {
    let mut tw = TaskWaker::new(0);
    tw.clear();

    let waker = tw.waker();
    waker.wake(&mut tw);
    assert!(tw.is_ready());
}

#[test]
fn waker_clone_is_independent() {
    let mut tw = TaskWaker::new(0);
    tw.clear();

    let w2 = {
        let w1 = tw.waker();
        w1.clone()
    };
    w2.wake(&mut tw);
    assert!(tw.is_ready());
}

#[test]
fn waker_multiple_clones_all_work() {
    let mut tw = TaskWaker::new(0);
    tw.clear();

    let w3 = {
        let w1 = tw.waker();
        let w2 = w1.clone();
        w2.clone()
    };
    w3.wake(&mut tw);
    assert!(tw.is_ready());
}

#[test]
fn waker_of_another_task_does_nothing() {
    let mut tw = TaskWaker::new(3);
    tw.clear();
    Waker { task: 4 }.wake(&mut tw);
    assert!(!tw.is_ready());
}

#[test]
fn join_two_ready_futures() {
    let mut f = join(ready(1u32), ready(2u32));
    match poll_once(&mut f) {
        Poll::Ready((a, b)) => {
            assert_eq!(a, 1);
            assert_eq!(b, 2);
        }
        Poll::Pending => panic!("join of two ready futures should be ready"),
    }
}

#[test]
fn join_waits_for_both() {
    let mut f = join(CountdownFuture::new(0, 10), CountdownFuture::new(2, 20));

    assert!(matches!(poll_once(&mut f), Poll::Pending));
    assert!(matches!(poll_once(&mut f), Poll::Pending));
    match poll_once(&mut f) {
        Poll::Ready((a, b)) => {
            assert_eq!(a, 10);
            assert_eq!(b, 20);
        }
        Poll::Pending => panic!("should be ready after 3 polls"),
    }
}

#[test]
fn join3_all_ready() {
    let mut f = join3(ready(1), ready(2), ready(3));
    match poll_once(&mut f) {
        Poll::Ready((a, b, c)) => {
            assert_eq!((a, b, c), (1, 2, 3));
        }
        Poll::Pending => panic!("should be ready"),
    }
}

#[test]
fn join3_mixed_readiness() {
    let mut f = join3(CountdownFuture::new(1, 10), ready(20usize), CountdownFuture::new(3, 30));

    assert!(matches!(poll_once(&mut f), Poll::Pending));
    assert!(matches!(poll_once(&mut f), Poll::Pending));
    assert!(matches!(poll_once(&mut f), Poll::Pending));
    match poll_once(&mut f) {
        Poll::Ready((a, b, c)) => assert_eq!((a, b, c), (10, 20, 30)),
        Poll::Pending => panic!("should be ready after 4 polls"),
    }
}

#[test]
fn join_all_empty() {
    let futures: Vec<ReadyFuture<u32>> = vec![];
    let mut f = join_all(futures);
    match poll_once(&mut f) {
        Poll::Ready(results) => assert!(results.is_empty()),
        Poll::Pending => panic!("empty join_all should be immediately ready"),
    }
}

#[test]
fn join_all_multiple() {
    let futures: Vec<Item> =
        vec![Item::Ready(ready(1)), Item::Ready(ready(2)), Item::Ready(ready(3))];
    let mut f = join_all(futures);
    match poll_once(&mut f) {
        Poll::Ready(results) => assert_eq!(results, vec![1, 2, 3]),
        Poll::Pending => panic!("all-ready join_all should resolve in one poll"),
    }
}

#[test]
fn join_all_mixed_readiness() {
    let futures: Vec<Item> = vec![
        Item::Countdown(CountdownFuture::new(0, 1)),
        Item::Countdown(CountdownFuture::new(2, 2)),
        Item::Countdown(CountdownFuture::new(1, 3)),
    ];
    let mut f = join_all(futures);

    assert!(matches!(poll_once(&mut f), Poll::Pending));
    assert!(matches!(poll_once(&mut f), Poll::Pending));
    match poll_once(&mut f) {
        Poll::Ready(results) => assert_eq!(results, vec![1, 2, 3]),
        Poll::Pending => panic!("should be ready"),
    }
}

#[test]
fn select_left_wins() {
    let mut f = select(ready(42u32), NeverFuture);
    match poll_once(&mut f) {
        Poll::Ready(Either::Left(v)) => assert_eq!(v, 42),
        _ => panic!("left should win"),
    }
}

#[test]
fn select_right_wins() {
    let mut f = select(NeverFuture, ready(99u32));
    match poll_once(&mut f) {
        Poll::Ready(Either::Right(v)) => assert_eq!(v, 99),
        _ => panic!("right should win"),
    }
}

#[test]
fn select_both_ready_left_wins() {
    let mut f = select(ready(1u32), ready(2u32));
    match poll_once(&mut f) {
        Poll::Ready(Either::Left(v)) => assert_eq!(v, 1),
        _ => panic!("left should win when both ready"),
    }
    assert!(f.b.0.is_some());
}

#[test]
fn select_neither_ready() {
    let mut f = select(NeverFuture, NeverFuture);
    assert!(matches!(poll_once(&mut f), Poll::Pending));
}

/// A task made of a closure that is called at each poll.
struct TestTask(Box<dyn FnMut(&mut Context<TestTask, u32>) -> Poll<()>>);

impl Future<Context<TestTask, u32>> for TestTask {
    type Output = ();

    fn polled(
        _: Self,
        _: Context<TestTask, u32>,
        _: Self,
        _: Context<TestTask, u32>,
        _: Poll<()>,
    ) -> bool {
        unreachable!()
    }

    fn poll(&mut self, cx: &mut Context<TestTask, u32>) -> Poll<()> {
        (self.0)(cx)
    }
}

fn task(f: impl FnMut(&mut Context<TestTask, u32>) -> Poll<()> + 'static) -> TestTask {
    TestTask(Box::new(f))
}

fn run_to_end(exec: &mut Executor<TestTask, u32>) -> usize {
    let mut rounds = 0;
    while exec.run() != Round::Finished {
        rounds += 1;
        assert!(rounds < 100, "the tasks should come to an end");
    }
    rounds
}

#[test]
fn executor_runs_single_task() {
    let counter = Rc::new(Cell::new(0));
    let c = counter.clone();

    let mut exec = Executor::new();
    exec.spawn(task(move |_| {
        c.set(42);
        Poll::Ready(())
    }));
    run_to_end(&mut exec);

    assert_eq!(counter.get(), 42);
}

#[test]
fn executor_runs_multiple_tasks() {
    let counter = Rc::new(Cell::new(0));

    let mut exec = Executor::new();
    for _ in 0..5 {
        let c = counter.clone();
        exec.spawn(task(move |_| {
            c.set(c.get() + 1);
            Poll::Ready(())
        }));
    }
    run_to_end(&mut exec);

    assert_eq!(counter.get(), 5);
}

#[test]
fn executor_spawner_works() {
    let counter = Rc::new(Cell::new(0));

    let mut exec = Executor::new();
    let spawner = exec.spawner();

    let c = counter.clone();
    exec.spawn(task(move |cx| {
        let c2 = c.clone();
        spawner.spawn(cx, task(move |_| {
            c2.set(99);
            Poll::Ready(())
        }));
        c.set(c.get() + 1);
        Poll::Ready(())
    }));
    run_to_end(&mut exec);

    assert_eq!(counter.get(), 99);
}

#[test]
fn executor_empty_runs_immediately() {
    let mut exec: Executor<TestTask, u32> = Executor::new();
    assert_eq!(run_to_end(&mut exec), 0);
}

#[test]
fn executor_polls_only_woken_tasks() {
    let polls = Rc::new(Cell::new(0));
    let p = polls.clone();
    let mut exec = Executor::new();
    exec.spawn(task(move |_| {
        p.set(p.get() + 1);
        Poll::Pending
    }));
    assert_eq!(exec.run(), Round::Idle);
    assert_eq!(exec.run(), Round::Idle);
    assert_eq!(polls.get(), 1);
}

#[test]
fn executor_polls_again_a_task_that_woke_itself() {
    let polls = Rc::new(Cell::new(0));
    let p = polls.clone();
    let mut exec = Executor::new();
    exec.spawn(task(move |cx| {
        p.set(p.get() + 1);
        if p.get() == 3 {
            return Poll::Ready(());
        }
        cx.wake_self();
        Poll::Pending
    }));
    assert_eq!(exec.run(), Round::Idle);
    assert_eq!(exec.run(), Round::Idle);
    assert_eq!(exec.run(), Round::Progress);
    assert_eq!(exec.run(), Round::Finished);
    assert_eq!(polls.get(), 3);
}

#[test]
fn executor_wakes_a_later_task_in_the_same_round() {
    let polls = Rc::new(Cell::new(0));
    let p = polls.clone();
    let mut exec = Executor::new();
    let mut first = true;
    exec.spawn(task(move |cx| {
        if first {
            first = false;
            cx.wake_self();
            return Poll::Pending;
        }
        cx.wake(Waker { task: 1 });
        Poll::Ready(())
    }));
    exec.spawn(task(move |_| {
        p.set(p.get() + 1);
        if p.get() == 2 {
            Poll::Ready(())
        } else {
            Poll::Pending
        }
    }));
    assert_eq!(exec.run(), Round::Idle);
    assert_eq!(exec.run(), Round::Progress);
    assert_eq!(polls.get(), 2);
    assert_eq!(exec.run(), Round::Finished);
}

#[test]
fn executor_wakes_a_task_whose_timer_has_come() {
    let mut exec = Executor::new();
    let mut timer = Timer::after(3);
    exec.spawn(task(move |cx| timer.poll(cx)));
    assert_eq!(exec.run(), Round::Idle);
    assert_eq!(exec.run(), Round::Idle);
    assert_eq!(exec.run(), Round::Progress);
    assert_eq!(exec.run(), Round::Progress);
    assert_eq!(exec.run(), Round::Finished);
    assert_eq!(exec.cx.reactor.tick, 4);
}

#[test]
fn timer_zero_delay_resolves_after_two_polls() {
    let mut timer = Timer::after(0);
    let mut cx: Context<TestTask, u32> = Context::new();
    match timer.poll(&mut cx) {
        Poll::Ready(()) => {}
        Poll::Pending => {
            cx.reactor.poll_timers();
            match timer.poll(&mut cx) {
                Poll::Ready(()) => {}
                Poll::Pending => panic!("timer(0) should resolve after one reactor tick"),
            }
        }
    }
}

#[test]
fn timer_nonzero_delay() {
    let mut timer = Timer::after(3);
    let mut cx: Context<TestTask, u32> = Context::new();

    assert!(matches!(timer.poll(&mut cx), Poll::Pending));

    cx.reactor.poll_timers();
    assert!(matches!(timer.poll(&mut cx), Poll::Pending));
    cx.reactor.poll_timers();
    assert!(matches!(timer.poll(&mut cx), Poll::Pending));

    cx.reactor.poll_timers();
    match timer.poll(&mut cx) {
        Poll::Ready(()) => {}
        Poll::Pending => panic!("timer(3) should be ready after 3 reactor ticks"),
    }
}

#[test]
fn timer_slots_are_used_again() {
    let mut cx: Context<TestTask, u32> = Context::new();
    let mut a = Timer::after(5);
    let mut b = Timer::after(7);
    assert!(matches!(a.poll(&mut cx), Poll::Pending));
    assert!(matches!(b.poll(&mut cx), Poll::Pending));
    assert_eq!((a.slot, b.slot), (Some(0), Some(1)));
    a.cancel(&mut cx.reactor);
    let mut c = Timer::after(9);
    assert!(matches!(c.poll(&mut cx), Poll::Pending));
    assert_eq!(c.slot, Some(0));
    assert_eq!(cx.reactor.timers[0].deadline_tick, 9);
}

#[test]
fn timer_wakes_once() {
    let mut cx: Context<TestTask, u32> = Context::new();
    cx.waker = Waker { task: 6 };
    let mut timer = Timer::after(2);
    assert!(matches!(timer.poll(&mut cx), Poll::Pending));
    assert_eq!(cx.reactor.poll_timers(), vec![]);
    assert_eq!(cx.reactor.poll_timers(), vec![Waker { task: 6 }]);
    assert_eq!(cx.reactor.poll_timers(), vec![]);
}

#[test]
fn poll_counting_timer() {
    let mut t = beetos_kernel::async_rt::Timer::after_ms(3);
    let mut cx = TaskWaker::new(0);
    assert!(matches!(t.poll(&mut cx), Poll::Pending));
    assert!(matches!(t.poll(&mut cx), Poll::Pending));
    assert!(matches!(t.poll(&mut cx), Poll::Ready(())));
    let mut zero = beetos_kernel::async_rt::Timer::after_ms(0);
    assert!(matches!(zero.poll(&mut cx), Poll::Ready(())));
}

#[test]
fn server_messages_in_order() {
    let mut reactor: Reactor<TestTask, u32> = Reactor::new();
    let sid = [1, 2, 3, 4];
    let id = reactor.register_server(sid);
    assert!(reactor.server_active(id));
    assert!(matches!(reactor.try_recv(id), Receive::AskKernel(s) if s == sid));
    reactor.set_server_waker(id, Waker { task: 2 });
    assert_eq!(reactor.deliver(id, 10), Some(Waker { task: 2 }));
    assert_eq!(reactor.deliver(id, 20), None);
    assert!(matches!(reactor.try_recv(id), Receive::Message(10)));
    assert!(matches!(reactor.try_recv(id), Receive::Message(20)));
    reactor.unregister_server(id);
    assert!(!reactor.server_active(id));
    assert!(matches!(reactor.try_recv(id), Receive::Inactive));
    assert_eq!(reactor.register_server([9; 4]), id);
}

#[test]
fn server_slots_are_walked() {
    let mut reactor: Reactor<TestTask, u32> = Reactor::new();
    let a = reactor.register_server([1; 4]);
    let b = reactor.register_server([2; 4]);
    assert_eq!((a, b), (0, 1));
    reactor.unregister_server(a);
    assert_eq!(reactor.next_server(0), Some((1, [2; 4])));
    assert_eq!(reactor.next_server(2), None);
}

#[test]
fn receive_future_steps() {
    let mut cx: Context<TestTask, u32> = Context::new();
    cx.waker = Waker { task: 1 };
    let mut server = AsyncServer::new(&mut cx.reactor, [7; 4]);
    assert_eq!(server.sid(), [7; 4]);
    {
        let recv = server.next();
        assert!(matches!(recv.poll_buffered(&mut cx), RecvStep::AskKernel(s) if s == [7; 4]));
        assert!(matches!(recv.poll_received(&mut cx, Some(5)), Poll::Ready(Ok(5))));
        assert!(matches!(recv.poll_received(&mut cx, None), Poll::Pending));
    }
    assert_eq!(cx.reactor.deliver(server.slot, 8), Some(Waker { task: 1 }));
    assert!(matches!(server.next().poll_buffered(&mut cx), RecvStep::Ready(Ok(8))));
    let slot = server.slot;
    cx.reactor.unregister_server(slot);
    match server.next().poll_buffered(&mut cx) {
        RecvStep::Ready(Err(e)) => {
            assert_eq!(e, RecvError::ServerGone);
            assert_eq!(e.message(), "server no longer registered with reactor");
        }
        _ => panic!("the server is gone"),
    }
    server.close(&mut cx.reactor);
}

#[test]
fn executor_delivers_messages() {
    let mut exec: Executor<TestTask, u32> = Executor::new();
    let got = Rc::new(Cell::new(0));
    let g = got.clone();
    let server = AsyncServer::new(&mut exec.cx.reactor, [3; 4]);
    let slot = server.slot;
    let mut server = server;
    exec.spawn(task(move |cx| {
        let recv = server.next();
        match recv.poll_buffered(cx) {
            RecvStep::Ready(Ok(m)) => {
                g.set(m);
                Poll::Ready(())
            }
            RecvStep::Ready(Err(_)) => panic!("the server is registered"),
            RecvStep::AskKernel(_) => match recv.poll_received(cx, None) {
                Poll::Ready(_) => panic!("there is no message"),
                Poll::Pending => Poll::Pending,
            },
        }
    }));
    assert_eq!(exec.run(), Round::Idle);
    assert!(exec.deliver(slot, 77));
    assert!(!exec.deliver(slot, 78));
    assert_eq!(exec.run(), Round::Progress);
    assert_eq!(got.get(), 77);
    assert_eq!(exec.run(), Round::Finished);
}

#[test]
fn executor_rounds_end() {
    let polls = Rc::new(Cell::new(0));
    let mut exec = Executor::new();
    for needed in 1..=4 {
        let p = polls.clone();
        let mut left = needed;
        exec.spawn(task(move |cx| {
            p.set(p.get() + 1);
            left -= 1;
            if left == 0 {
                return Poll::Ready(());
            }
            cx.wake_self();
            Poll::Pending
        }));
    }
    assert_eq!(run_to_end(&mut exec), 4);
    assert_eq!(polls.get(), 1 + 2 + 3 + 4);
    assert_eq!(exec.run(), Round::Finished);
    assert_eq!(polls.get(), 10);
}
