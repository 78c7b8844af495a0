//! The virtio entropy device, and the pool that it fills.
use crate::bytes;
use crate::mem::PAGE_SIZE;
use crate::mmio::{Access, Mmio};
use crate::platform::qemu_virt::virtio;
use crate::platform::qemu_virt::virtio::device;
use crate::platform::qemu_virt::virtio::queue;
use crate::platform::qemu_virt::virtio::queue::{QueueModel, VirtqDesc, VirtqUsed, Virtqueue};
use vstd::prelude::*;

verus! {

/// Descriptors in the request queue.
pub const QUEUE_SIZE: u16 = 8;

/// Bytes that are fetched at a time.
pub const POOL_SIZE: usize = 64;

/// How often the used ring is polled before the device counts as dead.
pub const POLL_SPINS_MAX: u32 = 10_000_000;

/// An entropy device that has been set up.
pub struct RngDevice {
    /// Offset of its transport.
    pub base: usize,
    pub queue: Virtqueue,
}

impl RngDevice {
    /// The transport is one there is, and the queue is well formed.
    pub open spec fn wf(&self) -> bool {
        self.queue.wf() && self.base <= usize::MAX - virtio::TRANSPORT_SIZE
    }
}

/// The source of entropy: the device, where there is one that answers, and the
/// bytes that were fetched and not used yet.
pub struct Rng {
    pub dev: Option<RngDevice>,
    pub pool: Vec<u8>,
    /// How much of the pool was not used yet.
    pub pool_len: usize,
}

impl View for Rng {
    type V = Seq<u8>;

    open spec fn view(&self) -> Seq<u8> {
        self.pool@.take(self.pool_len as int)
    }
}

// ---------------------------------------------------------------------------
// Setup
// ---------------------------------------------------------------------------

/// From `t0` to `t1` the device at `base` was set up, with its queue at `buf_pa`.
pub open spec fn initialised(
    t0: Seq<Access>,
    t1: Seq<Access>,
    base: int,
    buf_pa: u64,
    r: Option<RngDevice>,
) -> bool {
    exists|v: Seq<u32>| #[trigger] initialised_with(t0, t1, base, buf_pa, r, v)
}

/// The same, with what the device answered.
pub open spec fn initialised_with(
    t0: Seq<Access>,
    t1: Seq<Access>,
    base: int,
    buf_pa: u64,
    r: Option<RngDevice>,
    v: Seq<u32>,
) -> bool {
    let ta = t0 + device::setup_accesses(base, 0, v[0], v[1]);
    if device::agreed(0, v[0], v[1]) is None {
        t1 == ta && r is None
    } else {
        &&& t1 == ta + device::queue_accesses(base, 0, QUEUE_SIZE, buf_pa, PAGE_SIZE as u32, v[2])
            + device::ready_accesses(base, v[3])
        &&& r is Some
        &&& r->0.wf()
        &&& r->0.base == base
        &&& r->0.queue@ == queue::fresh(QUEUE_SIZE, buf_pa)
    }
}

/// Sets the entropy device at `base` up. Its interrupt stays off: answers are
/// polled for.
fn init_rng_device<M: Mmio>(mmio: &mut M, base: usize, buf_pa: u64) -> (r: Option<RngDevice>)
    requires
        base <= usize::MAX - virtio::TRANSPORT_SIZE,
    ensures
        initialised(old(mmio).trace(), final(mmio).trace(), base as int, buf_pa, r),
{
    let ghost t0 = mmio.trace();
    let ghost n = t0.len() as int;
    let agreed: Option<u32> = device::init_device(mmio, base, 0);
    let ghost ta = mmio.trace();
    let ghost host = crate::mmio::value_of(ta[n + 4]);
    let ghost readback = crate::mmio::value_of(ta[n + 9]);
    if agreed.is_none() {
        assert(initialised_with(t0, ta, base as int, buf_pa, None, seq![host, readback]));
        return None;
    }
    let queue: Virtqueue = Virtqueue::init(buf_pa, QUEUE_SIZE);
    device::setup_queue(mmio, base, 0, &queue, PAGE_SIZE as u32);
    let ghost tb = mmio.trace();
    let ghost max = crate::mmio::value_of(tb[ta.len() as int + 1]);
    device::driver_ok(mmio, base);
    let ghost status = crate::mmio::value_of(mmio.trace()[tb.len() as int]);
    let r: Option<RngDevice> = Some(RngDevice { base, queue });
    assert(initialised_with(
        t0,
        mmio.trace(),
        base as int,
        buf_pa,
        r,
        seq![host, readback, max, status],
    ));
    r
}

/// From `t0` to `t1` the transports from `from` on were searched for an entropy
/// device that could be set up.
pub open spec fn probed(
    t0: Seq<Access>,
    t1: Seq<Access>,
    base: int,
    from: int,
    buf_pa: u64,
    r: Option<RngDevice>,
) -> bool
    decreases virtio::NUM_TRANSPORTS - from,
{
    exists|tm: Seq<Access>, at: Option<usize>|
        {
            &&& #[trigger] device::searched(t0, tm, base, from, virtio::DEVICE_ID_ENTROPY, at)
            &&& match at {
                None => t1 == tm && r is None,
                Some(i) => exists|ta: Seq<Access>, ri: Option<RngDevice>|
                    {
                        &&& #[trigger] initialised(
                            tm,
                            ta,
                            device::transport_at(base, i as int),
                            buf_pa,
                            ri,
                        )
                        &&& if ri is Some {
                            t1 == ta && r == ri
                        } else {
                            from <= i && i < virtio::NUM_TRANSPORTS && probed(
                                ta,
                                t1,
                                base,
                                i + 1,
                                buf_pa,
                                r,
                            )
                        }
                    },
            }
        }
}

/// Searches the transports from `from` on.
fn probe_from<M: Mmio>(mmio: &mut M, base: usize, from: usize, buf_pa: u64) -> (r: Option<
    RngDevice,
>)
    requires
        base <= usize::MAX - 0x8000,
        from <= virtio::NUM_TRANSPORTS,
    ensures
        probed(old(mmio).trace(), final(mmio).trace(), base as int, from as int, buf_pa, r),
        r matches Some(d) ==> d.wf(),
    decreases virtio::NUM_TRANSPORTS - from,
{
    match device::next_transport(mmio, base, from, virtio::DEVICE_ID_ENTROPY) {
        None => None,
        Some(i) => {
            match init_rng_device(mmio, base + i * virtio::TRANSPORT_SIZE, buf_pa) {
                Some(d) => Some(d),
                None => probe_from(mmio, base, i + 1, buf_pa),
            }
        },
    }
}

/// Sets up the first entropy device that works, with its queue at `buf_pa`, and
/// an empty pool.
pub fn probe_and_init<M: Mmio>(mmio: &mut M, base: usize, buf_pa: u64) -> (r: Rng)
    requires
        base <= usize::MAX - 0x8000,
    ensures
        probed(old(mmio).trace(), final(mmio).trace(), base as int, 0, buf_pa, r.dev),
        r.wf(),
        r@ == Seq::<u8>::empty(),
        r.pool@ == Seq::new(POOL_SIZE as nat, |i: int| 0u8),
{
    let dev: Option<RngDevice> = probe_from(mmio, base, 0, buf_pa);
    let mut pool: Vec<u8> = Vec::new();
    bytes::push_zeros(&mut pool, POOL_SIZE);
    let r: Rng = Rng { dev, pool, pool_len: 0 };
    assert(r@ =~= Seq::<u8>::empty());
    assert(r.pool@ =~= Seq::new(POOL_SIZE as nat, |i: int| 0u8));
    r
}

// ---------------------------------------------------------------------------
// The pool
// ---------------------------------------------------------------------------

/// What one look for an answer of the device led to.
#[derive(Clone, Copy, PartialEq, Eq, Structural, Debug)]
pub enum Refill {
    /// No answer yet.
    Waiting,
    /// The pool holds what the device gave: at least one byte.
    Filled,
    /// The device gave nothing, or counts as dead.
    Dry,
}

/// The queue after a request for entropy in the buffer at `pa`.
pub open spec fn asked(q: QueueModel, pa: u64) -> QueueModel {
    q.taken().with_desc(q.free_head, queue::writable(pa, 64)).offered(q.free_head)
}

/// How many bytes of an answer are used.
pub open spec fn answer_len(len: u32) -> int {
    if len < POOL_SIZE {
        len as int
    } else {
        POOL_SIZE as int
    }
}

impl Rng {
    /// The pool has its size, and the device is well formed.
    pub open spec fn wf(&self) -> bool {
        &&& self.pool@.len() == POOL_SIZE
        &&& self.pool_len <= POOL_SIZE
        &&& (self.dev matches Some(d) ==> d.wf())
    }

    /// Takes four bytes, where the pool holds them, and wipes them.
    pub fn get_u32(&mut self) -> (r: Option<u32>)
        requires
            old(self).wf(),
        ensures
            final(self).wf(),
            final(self).dev == old(self).dev,
            if old(self)@.len() < 4 {
                r is None && *final(self) == *old(self)
            } else {
                let start = old(self)@.len() - 4;
                &&& r is Some
                &&& r->0 == bytes::le32_at(old(self)@, start)
                &&& final(self)@ == old(self)@.take(start)
                &&& forall|i: int| start <= i < start + 4 ==> #[trigger] final(self).pool@[i] == 0
                &&& forall|i: int|
                    0 <= i < POOL_SIZE && !(start <= i < start + 4)
                        ==> #[trigger] final(self).pool@[i] == old(self).pool@[i]
            },
    {
        if self.pool_len < 4 {
            return None;
        }
        let start: usize = self.pool_len - 4;
        let r: u32 = bytes::le32(self.pool.as_slice(), start);
        self.pool.set(start, 0);
        self.pool.set(start + 1, 0);
        self.pool.set(start + 2, 0);
        self.pool.set(start + 3, 0);
        self.pool_len = start;
        assert(self@ =~= old(self)@.take(start as int));
        Some(r)
    }

    /// Asks the device for entropy, in the buffer at `pa`; whether it could be
    /// asked. The caller hands the queue to the device and notifies it.
    pub fn begin_refill(&mut self, pa: u64) -> (r: bool)
        requires
            old(self).wf(),
        ensures
            final(self).wf(),
            final(self).pool == old(self).pool,
            final(self).pool_len == old(self).pool_len,
            match old(self).dev {
                None => !r && final(self).dev is None,
                Some(d) => {
                    &&& final(self).dev is Some
                    &&& final(self).dev->0.base == d.base
                    &&& final(self).dev->0.queue.num == d.queue.num
                    &&& r == (d.queue@.num_free > 0)
                    &&& final(self).dev->0.queue@ == (if r {
                        asked(d.queue@, pa)
                    } else {
                        d.queue@
                    })
                },
            },
    {
        match self.dev.take() {
            None => false,
            Some(d) => {
                let mut d: RngDevice = d;
                let r: bool = match d.queue.alloc_desc() {
                    None => false,
                    Some(i) => {
                        d.queue.set_desc(
                            i,
                            VirtqDesc {
                                addr: pa,
                                len: POOL_SIZE as u32,
                                flags: virtio::VIRTQ_DESC_F_WRITE,
                                next: 0,
                            },
                        );
                        d.queue.push_avail(i);
                        true
                    },
                };
                self.dev = Some(d);
                r
            },
        }
    }

    /// One look for the device's answer, with `spins` looks before it. An answer
    /// is acknowledged and fills the pool from the buffer, `data`. After too many
    /// looks the device is given up for good.
    pub fn poll_refill<M: Mmio>(
        &mut self,
        mmio: &mut M,
        spins: &mut u32,
        used: &VirtqUsed,
        data: &[u8],
    ) -> (r: Refill)
        requires
            old(self).wf(),
            old(self).dev is Some,
            used.ring@.len() == old(self).dev->0.queue.num,
            data@.len() == POOL_SIZE,
            *old(spins) <= POLL_SPINS_MAX,
            old(self).dev->0.queue@.counts(*used),
        ensures
            final(self).wf(),
            ({
                let d = old(self).dev->0;
                match d.queue@.next_used(*used) {
                    Some((head, len)) => {
                        let n = answer_len(len);
                        let t = final(mmio).trace();
                        let at = old(mmio).trace().len() as int;
                        &&& final(self).dev is Some
                        &&& final(self).dev->0.base == d.base
                        &&& final(self).dev->0.queue.num == d.queue.num
                        &&& final(self).dev->0.queue@ == d.queue@.looked(*used).released(head)
                        &&& final(self)@ == data@.take(n)
                        &&& final(self).pool@.skip(n) == old(self).pool@.skip(n)
                        &&& t == old(mmio).trace() + device::ack_accesses(
                            d.base as int,
                            crate::mmio::value_of(t[at]),
                        )
                        &&& *final(spins) == *old(spins)
                        &&& r == (if n > 0 {
                            Refill::Filled
                        } else {
                            Refill::Dry
                        })
                    },
                    None => {
                        let dead = *old(spins) + 1 > POLL_SPINS_MAX;
                        &&& *final(spins) == *old(spins) + 1
                        &&& final(self).pool == old(self).pool
                        &&& final(self).pool_len == old(self).pool_len
                        &&& final(mmio).trace() == old(mmio).trace()
                        &&& r == (if dead {
                            Refill::Dry
                        } else {
                            Refill::Waiting
                        })
                        &&& if dead {
                            final(self).dev is None
                        } else {
                            &&& final(self).dev is Some
                            &&& final(self).dev->0.base == d.base
                            &&& final(self).dev->0.queue.num == d.queue.num
                            &&& final(self).dev->0.queue@ == d.queue@
                        }
                    },
                }
            }),
    {
        let mut d: RngDevice = match self.dev.take() {
            Some(d) => d,
            None => {
                return Refill::Dry;
            },
        };
        match d.queue.pop_used(used) {
            Some((head, len)) => {
                d.queue.free_chain(head);
                let n: usize = if len < POOL_SIZE as u32 {
                    len as usize
                } else {
                    POOL_SIZE
                };
                let _ = device::ack_interrupt(mmio, d.base);
                let mut i: usize = 0;
                while i < n
                    invariant
                        i <= n <= POOL_SIZE,
                        self.pool@.len() == POOL_SIZE,
                        self.dev is None,
                        data@.len() == POOL_SIZE,
                        old(self).pool@.len() == POOL_SIZE,
                        forall|j: int|
                            n <= j < POOL_SIZE ==> #[trigger] self.pool@[j] == old(self).pool@[j],
                        forall|j: int| 0 <= j < i ==> #[trigger] self.pool@[j] == data@[j],
                    decreases n - i,
                {
                    self.pool.set(i, data[i]);
                    i = i + 1;
                }
                self.pool_len = n;
                self.dev = Some(d);
                assert(self@ =~= data@.take(n as int));
                assert(self.pool@.skip(n as int) =~= old(self).pool@.skip(n as int));
                if n > 0 {
                    Refill::Filled
                } else {
                    Refill::Dry
                }
            },
            None => {
                *spins = *spins + 1;
                if *spins > POLL_SPINS_MAX {
                    return Refill::Dry;
                }
                self.dev = Some(d);
                Refill::Waiting
            },
        }
    }
}

/// A request that was answered leaves as many descriptors free as there were.
pub proof fn law_refill_gives_back(q: QueueModel, pa: u64)
    requires
        q.orderly(),
        q.num_free > 0,
    ensures
        asked(q, pa).orderly(),
        asked(q, pa).released(q.free_head).orderly(),
        asked(q, pa).released(q.free_head).free() == q.free(),
        asked(q, pa).released(q.free_head).num_free == q.num_free,
{
    queue::law_take(q);
    let d = queue::writable(pa, 64);
    queue::law_fill(q.taken(), q.free_head, d);
    let w = q.taken().with_desc(q.free_head, d);
    let s = asked(q, pa);
    assert(s.free() == w.free());
    let chain = seq![q.free_head];
    assert(queue::is_chain(s, chain));
    queue::law_chain_is_released(s, chain);
    assert(chain.reverse() + s.free() =~= q.free());
}

/// A request for entropy, as the device finds it: the ring's next slot names a single buffer
/// of 64 bytes at the address, which the device may write.
pub proof fn law_request_reaches_the_device(q: QueueModel, pa: u64)
    requires
        q.orderly(),
        q.num_free > 0,
    ensures
        ({
            let after = asked(q, pa);
            let slot = q.avail_idx as int % q.desc.len() as int;
            let d = after.desc[after.avail[slot] as int];
            &&& after.avail_idx == (q.avail_idx + 1) % 0x1_0000
            &&& d.addr == pa
            &&& d.len == 64
            &&& d.flags == 2
        }),
{
    let slot = q.avail_idx as int % q.desc.len() as int;
    assert(0 <= slot < q.desc.len());
}

/// No more than the 64 bytes of the pool are taken from an answer, and all of them where there
/// are no more.
pub proof fn law_answer_fills_the_pool(len: u32)
    ensures
        len <= 64 ==> answer_len(len) == len,
        len >= 64 ==> answer_len(len) == 64,
{
}

} // verus!
