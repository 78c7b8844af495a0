//! A byte queue in a fixed circular buffer. One slot stays unused, so a buffer
//! of `n` bytes queues at most `n - 1`.
use vstd::prelude::*;

verus! {

/// Circular byte queue: `head` is where the next byte goes in, `tail` where
/// the next byte comes out.
pub struct ByteRing {
    buf: Vec<u8>,
    head: usize,
    tail: usize,
}

impl View for ByteRing {
    type V = Seq<u8>;

    /// The queued bytes, oldest first.
    closed spec fn view(&self) -> Seq<u8> {
        if self.tail <= self.head {
            self.buf@.subrange(self.tail as int, self.head as int)
        } else {
            self.buf@.subrange(self.tail as int, self.buf@.len() as int) + self.buf@.take(
                self.head as int,
            )
        }
    }
}

impl ByteRing {
    /// The most bytes that the queue can hold.
    pub closed spec fn cap(&self) -> nat {
        (self.buf@.len() - 1) as nat
    }

    /// The indices lie inside the buffer.
    pub closed spec fn wf(&self) -> bool {
        &&& 2 <= self.buf@.len() <= 0x1_0000
        &&& self.head < self.buf@.len()
        &&& self.tail < self.buf@.len()
    }

    /// The queue never holds more than its capacity.
    pub proof fn lemma_len(&self)
        requires
            self.wf(),
        ensures
            self@.len() <= self.cap(),
            1 <= self.cap() < 0x1_0000,
    {
    }

    /// An empty queue over a buffer of `size` bytes.
    pub fn new(size: usize) -> (r: ByteRing)
        requires
            2 <= size <= 0x1_0000,
        ensures
            r.wf(),
            r@ == Seq::<u8>::empty(),
            r.cap() == size - 1,
    {
        let mut buf: Vec<u8> = Vec::new();
        crate::bytes::push_zeros(&mut buf, size);
        let r: ByteRing = ByteRing { buf, head: 0, tail: 0 };
        assert(r@ =~= Seq::<u8>::empty());
        r
    }

    /// How many bytes are queued.
    pub fn len(&self) -> (n: usize)
        requires
            self.wf(),
        ensures
            n == self@.len(),
    {
        if self.tail <= self.head {
            self.head - self.tail
        } else {
            self.head + self.buf.len() - self.tail
        }
    }

    /// True when nothing is queued.
    pub fn is_empty(&self) -> (r: bool)
        requires
            self.wf(),
        ensures
            r == (self@.len() == 0),
    {
        self.head == self.tail
    }

    /// How many more bytes fit.
    pub fn free(&self) -> (n: usize)
        requires
            self.wf(),
        ensures
            n == self.cap() - self@.len(),
    {
        proof {
            self.lemma_len();
        }
        self.buf.len() - 1 - self.len()
    }

    /// Queues one byte; refused (`false`) when the queue is full.
    fn push(&mut self, b: u8) -> (r: bool)
        requires
            old(self).wf(),
        ensures
            final(self).wf(),
            final(self).cap() == old(self).cap(),
            r == (old(self)@.len() < old(self).cap()),
            r ==> final(self)@ == old(self)@.push(b),
            !r ==> *final(self) == *old(self),
    {
        let size: usize = self.buf.len();
        let next: usize = if self.head + 1 == size { 0 } else { self.head + 1 };
        if next == self.tail {
            return false;
        }
        let h: usize = self.head;
        self.buf.set(h, b);
        self.head = next;
        assert(self@ =~= old(self)@.push(b));
        true
    }

    /// Takes the oldest byte.
    fn pop(&mut self) -> (r: u8)
        requires
            old(self).wf(),
            old(self)@.len() > 0,
        ensures
            final(self).wf(),
            final(self).cap() == old(self).cap(),
            r == old(self)@[0],
            final(self)@ == old(self)@.skip(1),
    {
        let size: usize = self.buf.len();
        let b: u8 = self.buf[self.tail];
        self.tail = if self.tail + 1 == size { 0 } else { self.tail + 1 };
        assert(self@ =~= old(self)@.skip(1));
        b
    }

    /// Queues the longest prefix of `data` that fits and says how long it is.
    pub fn push_fitting(&mut self, data: &[u8]) -> (n: usize)
        requires
            old(self).wf(),
        ensures
            final(self).wf(),
            final(self).cap() == old(self).cap(),
            n == fitting(old(self)@, old(self).cap(), data@),
            final(self)@ == old(self)@ + data@.take(n as int),
    {
        let mut n: usize = 0;
        assert(data@.take(0) =~= Seq::<u8>::empty());
        assert(self@ =~= self@ + data@.take(0));
        proof {
            self.lemma_len();
        }
        while n < data.len()
            invariant
                self.wf(),
                self.cap() == old(self).cap(),
                old(self)@.len() + n <= self.cap(),
                n <= data@.len(),
                self@ == old(self)@ + data@.take(n as int),
            decreases data@.len() - n,
        {
            if !self.push(data[n]) {
                return n;
            }
            assert(data@.take(n + 1) =~= data@.take(n as int).push(data@[n as int]));
            assert(self@ =~= old(self)@ + data@.take(n + 1));
            n = n + 1;
            proof {
                self.lemma_len();
            }
        }
        n
    }

    /// Queues all of `data`; when the queue is full the oldest byte makes room.
    pub fn push_overwriting(&mut self, data: &[u8])
        requires
            old(self).wf(),
        ensures
            final(self).wf(),
            final(self).cap() == old(self).cap(),
            final(self)@ == newest(old(self)@ + data@, old(self).cap()),
    {
        let mut i: usize = 0;
        proof {
            self.lemma_len();
            assert(data@.take(0) =~= Seq::<u8>::empty());
            assert(newest(self@ + data@.take(0), self.cap()) =~= self@);
        }
        while i < data.len()
            invariant
                self.wf(),
                self.cap() == old(self).cap(),
                i <= data@.len(),
                self@ == newest(old(self)@ + data@.take(i as int), self.cap()),
            decreases data@.len() - i,
        {
            let ghost before = old(self)@ + data@.take(i as int);
            let ghost cap = self.cap();
            proof {
                self.lemma_len();
            }
            if !self.push(data[i]) {
                let _ = self.pop();
                let _ = self.push(data[i]);
            }
            assert(old(self)@ + data@.take(i + 1) =~= before.push(data@[i as int]));
            assert(self@ =~= newest(before.push(data@[i as int]), cap));
            i = i + 1;
        }
        assert(data@.take(i as int) =~= data@);
    }

    /// Takes up to `max` bytes, oldest first.
    pub fn drain(&mut self, max: usize) -> (out: Vec<u8>)
        requires
            old(self).wf(),
        ensures
            final(self).wf(),
            final(self).cap() == old(self).cap(),
            out@ == old(self)@.take(drained(old(self)@, max as nat) as int),
            final(self)@ == old(self)@.skip(drained(old(self)@, max as nat) as int),
    {
        let mut out: Vec<u8> = Vec::new();
        assert(out@ =~= self@.take(0));
        assert(self@ =~= self@.skip(0));
        while out.len() < max && !self.is_empty()
            invariant
                self.wf(),
                self.cap() == old(self).cap(),
                out@.len() <= max,
                out@.len() <= old(self)@.len(),
                out@ == old(self)@.take(out@.len() as int),
                self@ == old(self)@.skip(out@.len() as int),
            decreases max - out@.len(),
        {
            let ghost k = out@.len() as int;
            let b: u8 = self.pop();
            out.push(b);
            assert(out@ =~= old(self)@.take(k + 1));
            assert(self@ =~= old(self)@.skip(k + 1));
        }
        out
    }
}

/// How much of `data` fits behind `queued` in a queue of `cap` bytes.
pub open spec fn fitting(queued: Seq<u8>, cap: nat, data: Seq<u8>) -> int {
    if data.len() <= cap - queued.len() {
        data.len() as int
    } else {
        cap - queued.len()
    }
}

/// The last `cap` bytes of `s` (all of it when it is shorter).
pub open spec fn newest(s: Seq<u8>, cap: nat) -> Seq<u8> {
    if s.len() <= cap {
        s
    } else {
        s.skip(s.len() - cap)
    }
}

/// How many bytes a drain of at most `max` takes.
pub open spec fn drained(queued: Seq<u8>, max: nat) -> nat {
    if queued.len() <= max {
        queued.len()
    } else {
        max
    }
}

/// Bytes come out in the order in which they went in: pushing what fits and
/// then draining everything gives back the old contents followed by exactly
/// the accepted prefix.
pub proof fn law_ring_is_fifo(queued: Seq<u8>, cap: nat, data: Seq<u8>)
    requires
        queued.len() <= cap,
    ensures
        ({
            let full = queued + data.take(fitting(queued, cap, data));
            &&& full.len() <= cap
            &&& full.take(drained(full, cap) as int) == full
            &&& full.skip(drained(full, cap) as int) == Seq::<u8>::empty()
        }),
{
    let full = queued + data.take(fitting(queued, cap, data));
    assert(full.take(full.len() as int) =~= full);
    assert(full.skip(full.len() as int) =~= Seq::<u8>::empty());
}

/// Of bytes that go into a queue, as many are taken as there is room for: all of them, or so
/// many that the queue is full then. Where older bytes make room the queue ends with the last
/// byte that went in, and what was lost came before everything that is left.
pub proof fn law_room_decides(queued: Seq<u8>, cap: nat, data: Seq<u8>)
    requires
        queued.len() <= cap,
    ensures
        ({
            let n = fitting(queued, cap, data);
            let all = queued + data;
            let kept = newest(all, cap);
            let lost = all.len() - kept.len();
            &&& 0 <= n <= data.len()
            &&& queued.len() + n <= cap
            &&& n == data.len() || queued.len() + n == cap
            &&& kept.len() <= cap
            &&& lost == 0 || kept.len() == cap
            &&& all == all.take(lost) + kept
        }),
{
    let all = queued + data;
    let kept = newest(all, cap);
    assert(all =~= all.take(all.len() - kept.len()) + kept);
}

/// Bytes that are taken in two portions are those that one portion would have given.
pub proof fn law_portions_add_up(queued: Seq<u8>, a: nat, b: nat)
    ensures
        ({
            let n = drained(queued, a) as int;
            let rest = queued.skip(n);
            let k = drained(rest, b) as int;
            &&& queued.take(n) + rest.take(k) == queued.take(drained(queued, a + b) as int)
            &&& rest.skip(k) == queued.skip(drained(queued, a + b) as int)
        }),
{
    let n = drained(queued, a) as int;
    let rest = queued.skip(n);
    let k = drained(rest, b) as int;
    assert(n + k == drained(queued, a + b));
    assert(queued.take(n) + rest.take(k) =~= queued.take(n + k));
    assert(rest.skip(k) =~= queued.skip(n + k));
}

} // verus!
