//! Tasks that take turns on one thread.
use vstd::prelude::*;

pub mod combinators;
pub mod context;
pub mod executor;
pub mod reactor;
pub mod server;
pub mod timer;
pub mod waker;

verus! {

/// What a poll gives.
pub enum Poll<T> {
    /// The work is done.
    Ready(T),
    /// There is nothing to give yet.
    Pending,
}

/// Work that is done bit by bit: each poll goes on with it, in a context that it may
/// change.
pub trait Future<C>: Sized {
    /// What comes out in the end.
    type Output;

    /// A poll may turn `before` and the context `c0` into `after` and `c1`, and give
    /// `r`.
    spec fn polled(before: Self, c0: C, after: Self, c1: C, r: Poll<Self::Output>) -> bool;

    /// Goes on with the work.
    fn poll(&mut self, cx: &mut C) -> (r: Poll<Self::Output>)
        ensures
            Self::polled(*old(self), *old(cx), *final(self), *final(cx), r),
    ;
}

/// Is ready after a number of polls, taking a poll for about a millisecond.
#[derive(Clone, Copy, PartialEq, Eq, Structural, Debug)]
pub struct Timer {
    pub target_ms: u64,
    pub started: bool,
    pub start_ms: u64,
}

impl Timer {
    /// A timer that is ready after so many milliseconds.
    pub fn after_ms(ms: u64) -> (r: Timer)
        ensures
            r == (Timer { target_ms: ms, started: false, start_ms: 0 }),
    {
        Timer { target_ms: ms, started: false, start_ms: 0 }
    }

    /// The polls that have been counted, this one included.
    pub open spec fn counted(self) -> int {
        if !self.started {
            1
        } else if self.start_ms < u64::MAX {
            self.start_ms + 1
        } else {
            u64::MAX as int
        }
    }
}

impl<C> Future<C> for Timer {
    type Output = ();

    open spec fn polled(before: Timer, c0: C, after: Timer, c1: C, r: Poll<()>) -> bool {
        &&& c1 == c0
        &&& after == (Timer {
            started: true,
            start_ms: before.counted() as u64,
            ..before
        })
        &&& r is Ready <==> before.counted() >= before.target_ms
    }

    fn poll(&mut self, cx: &mut C) -> (r: Poll<()>) {
        if !self.started {
            self.start_ms = 0;
            self.started = true;
        }
        self.start_ms = self.start_ms.saturating_add(1);
        if self.start_ms >= self.target_ms {
            Poll::Ready(())
        } else {
            Poll::Pending
        }
    }
}

/// The timer after a number of polls.
pub open spec fn after_polls(t: Timer, n: nat) -> Timer
    decreases n,
{
    if n == 0 {
        t
    } else {
        let before = after_polls(t, (n - 1) as nat);
        Timer { started: true, start_ms: before.counted() as u64, ..before }
    }
}

/// A timer of so many milliseconds is ready at the poll of that number, or at the
/// first, and not before.
pub proof fn law_timer_counts_polls(ms: u64, n: nat)
    requires
        n < u64::MAX,
    ensures
        after_polls(Timer { target_ms: ms, started: false, start_ms: 0 }, n).counted() == n + 1,
        after_polls(Timer { target_ms: ms, started: false, start_ms: 0 }, n).target_ms == ms,
    decreases n,
{
    if n > 0 {
        law_timer_counts_polls(ms, (n - 1) as nat);
    }
}

} // verus!
