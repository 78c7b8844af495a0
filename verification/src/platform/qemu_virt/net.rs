//! The virtio network device.
//!
//! The functions here work on the queues as values. The caller hands a queue to
//! the device after a function has changed it, and then notifies the device.
use crate::bytes;
use crate::mem::PAGE_SIZE;
use crate::mmio::{Access, Mmio};
use crate::platform::gic::Gic;
use crate::platform::qemu_virt::blk;
use crate::platform::qemu_virt::virtio;
use crate::platform::qemu_virt::virtio::device;
use crate::platform::qemu_virt::virtio::queue;
use crate::platform::qemu_virt::virtio::queue::{QueueModel, VirtqDesc, VirtqUsed, Virtqueue};
use vstd::prelude::*;

verus! {

/// The device has an address of its own.
pub const VIRTIO_NET_F_MAC: u32 = 32;

/// Bytes of the header before each frame.
pub const VNET_HDR_SIZE: usize = 10;

/// The longest frame.
pub const MAX_FRAME_SIZE: usize = 1518;

/// Bytes in a receive buffer.
pub const RX_BUF_SIZE: usize = 1536;

/// The shortest frame: an Ethernet header.
pub const MIN_FRAME_SIZE: usize = 14;

/// Descriptors in each queue.
pub const QUEUE_SIZE: u16 = 16;

/// How often the used ring is polled after a frame was sent.
pub const TX_POLL_LIMIT: u32 = 1_000_000;

/// Where the device's memory is.
pub struct NetMemory {
    pub rx_queue: u64,
    pub tx_queue: u64,
    /// One receive buffer for each descriptor.
    pub rx_bufs: Vec<u64>,
    pub tx_buf: u64,
}

/// A network device that has been set up.
pub struct NetDev {
    /// Offset of its transport.
    pub base: usize,
    pub mac: [u8; 6],
    pub rx_queue: Virtqueue,
    pub tx_queue: Virtqueue,
    /// Its interrupt.
    pub irq: u32,
    /// The receive buffer of each descriptor.
    pub rx_desc_to_buf: Vec<usize>,
    pub rx_bufs: Vec<u64>,
    pub tx_buf: u64,
}

impl NetDev {
    /// Every receive descriptor is with the device or with a reader, and has a
    /// buffer.
    pub open spec fn wf(&self) -> bool {
        &&& self.base <= usize::MAX - virtio::TRANSPORT_SIZE
        &&& self.rx_queue.wf()
        &&& self.tx_queue.wf()
        &&& self.rx_queue.num == QUEUE_SIZE
        &&& self.rx_queue@.num_free == 0
        &&& self.rx_desc_to_buf@.len() == QUEUE_SIZE
        &&& self.rx_bufs@.len() == QUEUE_SIZE
        &&& forall|i: int|
            0 <= i < QUEUE_SIZE ==> (#[trigger] self.rx_desc_to_buf@[i]) < QUEUE_SIZE
    }

    /// All but the queues stayed as they were.
    pub open spec fn same_device(&self, other: NetDev) -> bool {
        &&& self.base == other.base
        &&& self.mac == other.mac
        &&& self.irq == other.irq
        &&& self.rx_desc_to_buf == other.rx_desc_to_buf
        &&& self.rx_bufs == other.rx_bufs
        &&& self.tx_buf == other.tx_buf
        &&& self.tx_queue.num == other.tx_queue.num
    }
}

// ---------------------------------------------------------------------------
// Setup
// ---------------------------------------------------------------------------

/// The address in the device's registers.
pub open spec fn mac_in(w0: u32, w1: u32) -> Seq<u8> {
    seq![
        (w0 % 0x100) as u8,
        (w0 / 0x100 % 0x100) as u8,
        (w0 / 0x1_0000 % 0x100) as u8,
        (w0 / 0x100_0000) as u8,
        (w1 % 0x100) as u8,
        (w1 / 0x100 % 0x100) as u8,
    ]
}

/// The address of a device that has none of its own.
pub open spec fn default_mac() -> Seq<u8> {
    seq![0x52u8, 0x54u8, 0x00u8, 0x12u8, 0x34u8, 0x56u8]
}

/// A receive buffer at `pa`.
pub open spec fn rx_desc(pa: u64) -> VirtqDesc {
    queue::writable(pa, 1536)
}

/// From `t0` to `t1` the device at transport `i` was set up.
pub open spec fn initialised(
    t0: Seq<Access>,
    t1: Seq<Access>,
    base: int,
    i: int,
    mem: NetMemory,
    r: Option<NetDev>,
) -> bool {
    exists|v: Seq<u32>| #[trigger] initialised_with(t0, t1, base, i, mem, r, v)
}

/// The same, with what the device answered: features and status, the two words of
/// the address, the sizes of the two queues, and the status at the end.
pub open spec fn initialised_with(
    t0: Seq<Access>,
    t1: Seq<Access>,
    base: int,
    i: int,
    mem: NetMemory,
    r: Option<NetDev>,
    v: Seq<u32>,
) -> bool {
    let ta = t0 + device::setup_accesses(base, VIRTIO_NET_F_MAC, v[0], v[1]);
    let has_mac = (v[0] & VIRTIO_NET_F_MAC) & VIRTIO_NET_F_MAC != 0;
    let config = base + virtio::regs::CONFIG;
    let tb = if has_mac {
        ta.push(Access::Read(config, v[2])).push(Access::Read(config + 4, v[3]))
    } else {
        ta
    };
    let page = PAGE_SIZE as u32;
    let tc = tb + device::queue_accesses(base, 0, QUEUE_SIZE, mem.rx_queue, page, v[4])
        + device::queue_accesses(base, 1, QUEUE_SIZE, mem.tx_queue, page, v[5])
        + device::ready_accesses(base, v[6]);
    if device::agreed(VIRTIO_NET_F_MAC, v[0], v[1]) is None {
        t1 == ta && r is None
    } else {
        &&& t1 == tc
        &&& r is Some
        &&& r->0.wf()
        &&& r->0.base == base
        &&& r->0.irq == virtio::VIRTIO_IRQ_BASE + i
        &&& r->0.mac@ == (if has_mac {
            mac_in(v[2], v[3])
        } else {
            default_mac()
        })
        &&& r->0.rx_queue@ == queue::stocked(
            queue::fresh(QUEUE_SIZE, mem.rx_queue),
            mem.rx_bufs@,
            1536,
            QUEUE_SIZE as nat,
        )
        &&& r->0.tx_queue@ == queue::fresh(QUEUE_SIZE, mem.tx_queue)
        &&& r->0.rx_desc_to_buf@ == Seq::new(QUEUE_SIZE as nat, |j: int| j as usize)
        &&& r->0.rx_bufs@ == mem.rx_bufs@
        &&& r->0.tx_buf == mem.tx_buf
    }
}

/// Reads the address of a device that has one.
fn read_mac<M: Mmio>(mmio: &mut M, base: usize) -> (r: [u8; 6])
    requires
        base <= usize::MAX - virtio::TRANSPORT_SIZE,
    ensures
        ({
            let n = old(mmio).trace().len() as int;
            let t = final(mmio).trace();
            let w0 = crate::mmio::value_of(t[n]);
            let w1 = crate::mmio::value_of(t[n + 1]);
            let config = base + virtio::regs::CONFIG;
            &&& t == old(mmio).trace().push(Access::Read(config, w0)).push(
                Access::Read(config + 4, w1),
            )
            &&& r@ == mac_in(w0, w1)
        }),
{
    let w0: u32 = device::read_config_u32(mmio, base, 0);
    let w1: u32 = device::read_config_u32(mmio, base, 4);
    let r: [u8; 6] = [
        (w0 % 0x100) as u8,
        (w0 / 0x100 % 0x100) as u8,
        (w0 / 0x1_0000 % 0x100) as u8,
        (w0 / 0x100_0000) as u8,
        (w1 % 0x100) as u8,
        (w1 / 0x100 % 0x100) as u8,
    ];
    assert(r@ =~= mac_in(w0, w1));
    r
}

/// Sets the network device at transport `i` up, with every receive buffer
/// offered. The caller hands both queues to the device and then notifies it of
/// queue 0.
fn init_net_device<M: Mmio, D: Mmio, R: Mmio>(
    mmio: &mut M,
    gic: &mut Gic<D, R>,
    base: usize,
    i: usize,
    mem: &NetMemory,
) -> (r: Option<NetDev>)
    requires
        base <= usize::MAX - virtio::TRANSPORT_SIZE,
        i < virtio::NUM_TRANSPORTS,
        mem.rx_bufs@.len() == QUEUE_SIZE,
    ensures
        initialised(old(mmio).trace(), final(mmio).trace(), base as int, i as int, *mem, r),
        final(gic).gicr.trace() == old(gic).gicr.trace(),
        final(gic).gicd.trace() == (if r is Some {
            blk::irq_enabled(old(gic).gicd.trace(), i as int)
        } else {
            old(gic).gicd.trace()
        }),
{
    let ghost t0 = mmio.trace();
    let ghost n = t0.len() as int;
    let agreed: Option<u32> = device::init_device(mmio, base, VIRTIO_NET_F_MAC);
    let ghost ta = mmio.trace();
    let ghost host = crate::mmio::value_of(ta[n + 4]);
    let ghost readback = crate::mmio::value_of(ta[n + 9]);
    let features: u32 = match agreed {
        Some(f) => f,
        None => {
            assert(initialised_with(
                t0,
                ta,
                base as int,
                i as int,
                *mem,
                None,
                seq![host, readback],
            ));
            return None;
        },
    };
    let ghost mut w0: u32 = 0;
    let ghost mut w1: u32 = 0;
    let mac: [u8; 6] = if features & VIRTIO_NET_F_MAC != 0 {
        let m: [u8; 6] = read_mac(mmio, base);
        proof {
            w0 = crate::mmio::value_of(mmio.trace()[ta.len() as int]);
            w1 = crate::mmio::value_of(mmio.trace()[ta.len() as int + 1]);
        }
        m
    } else {
        [0x52, 0x54, 0x00, 0x12, 0x34, 0x56]
    };
    assert(features & VIRTIO_NET_F_MAC == 0 ==> mac@ =~= default_mac());
    let ghost tb = mmio.trace();
    let mut rx_queue: Virtqueue = Virtqueue::init(mem.rx_queue, QUEUE_SIZE);
    let tx_queue: Virtqueue = Virtqueue::init(mem.tx_queue, QUEUE_SIZE);
    device::setup_queue(mmio, base, 0, &rx_queue, PAGE_SIZE as u32);
    let ghost tc = mmio.trace();
    let ghost max0 = crate::mmio::value_of(tc[tb.len() as int + 1]);
    device::setup_queue(mmio, base, 1, &tx_queue, PAGE_SIZE as u32);
    let ghost td = mmio.trace();
    let ghost max1 = crate::mmio::value_of(td[tc.len() as int + 1]);
    device::driver_ok(mmio, base);
    let ghost status = crate::mmio::value_of(mmio.trace()[td.len() as int]);
    let irq: u32 = virtio::VIRTIO_IRQ_BASE + i as u32;
    gic.enable_irq(irq);
    let rx_desc_to_buf: Vec<usize> = rx_queue.stock(&mem.rx_bufs, RX_BUF_SIZE as u32);
    let rx_bufs: Vec<u64> = vstd::slice::slice_to_vec(mem.rx_bufs.as_slice());
    let r: Option<NetDev> = Some(
        NetDev {
            base,
            mac,
            rx_queue,
            tx_queue,
            irq,
            rx_desc_to_buf,
            rx_bufs,
            tx_buf: mem.tx_buf,
        },
    );
    proof {
        let v = seq![host, readback, w0, w1, max0, max1, status];
        assert(r->0.rx_desc_to_buf@ == Seq::new(QUEUE_SIZE as nat, |j: int| j as usize));
        assert(initialised_with(t0, mmio.trace(), base as int, i as int, *mem, r, v));
    }
    r
}

/// From `t0` to `t1` the transports from `from` on were searched for a network
/// device that could be set up.
pub open spec fn probed(
    t0: Seq<Access>,
    t1: Seq<Access>,
    base: int,
    from: int,
    mem: NetMemory,
    r: Option<NetDev>,
) -> bool
    decreases virtio::NUM_TRANSPORTS - from,
{
    exists|tm: Seq<Access>, at: Option<usize>|
        {
            &&& #[trigger] device::searched(t0, tm, base, from, virtio::DEVICE_ID_NET, at)
            &&& match at {
                None => t1 == tm && r is None,
                Some(i) => exists|ta: Seq<Access>, ri: Option<NetDev>|
                    {
                        &&& #[trigger] initialised(
                            tm,
                            ta,
                            device::transport_at(base, i as int),
                            i as int,
                            mem,
                            ri,
                        )
                        &&& if ri is Some {
                            t1 == ta && r == ri
                        } else {
                            from <= i && i < virtio::NUM_TRANSPORTS && probed(
                                ta,
                                t1,
                                base,
                                i + 1,
                                mem,
                                r,
                            )
                        }
                    },
            }
        }
}

/// Searches the transports from `from` on.
fn probe_from<M: Mmio, D: Mmio, R: Mmio>(
    mmio: &mut M,
    gic: &mut Gic<D, R>,
    base: usize,
    from: usize,
    mem: &NetMemory,
) -> (r: Option<NetDev>)
    requires
        base <= usize::MAX - 0x8000,
        from <= virtio::NUM_TRANSPORTS,
        mem.rx_bufs@.len() == QUEUE_SIZE,
    ensures
        probed(old(mmio).trace(), final(mmio).trace(), base as int, from as int, *mem, r),
        final(gic).gicr.trace() == old(gic).gicr.trace(),
        final(gic).gicd.trace() == (match r {
            Some(d) => blk::irq_enabled(
                old(gic).gicd.trace(),
                d.irq - virtio::VIRTIO_IRQ_BASE,
            ),
            None => old(gic).gicd.trace(),
        }),
        r matches Some(d) ==> d.wf(),
    decreases virtio::NUM_TRANSPORTS - from,
{
    match device::next_transport(mmio, base, from, virtio::DEVICE_ID_NET) {
        None => None,
        Some(i) => {
            match init_net_device(mmio, gic, base + i * virtio::TRANSPORT_SIZE, i, mem) {
                Some(d) => Some(d),
                None => probe_from(mmio, gic, base, i + 1, mem),
            }
        },
    }
}

/// Sets up the first network device that works.
pub fn probe_and_init<M: Mmio, D: Mmio, R: Mmio>(
    mmio: &mut M,
    gic: &mut Gic<D, R>,
    base: usize,
    mem: &NetMemory,
) -> (r: Option<NetDev>)
    requires
        base <= usize::MAX - 0x8000,
        mem.rx_bufs@.len() == QUEUE_SIZE,
    ensures
        probed(old(mmio).trace(), final(mmio).trace(), base as int, 0, *mem, r),
        final(gic).gicr.trace() == old(gic).gicr.trace(),
        final(gic).gicd.trace() == (match r {
            Some(d) => blk::irq_enabled(
                old(gic).gicd.trace(),
                d.irq - virtio::VIRTIO_IRQ_BASE,
            ),
            None => old(gic).gicd.trace(),
        }),
        r matches Some(d) ==> d.wf(),
{
    probe_from(mmio, gic, base, 0, mem)
}

// ---------------------------------------------------------------------------
// The device
// ---------------------------------------------------------------------------

/// There is a network device.
pub fn is_available(dev: &Option<NetDev>) -> (r: bool)
    ensures
        r == (*dev is Some),
{
    dev.is_some()
}

/// The address of the device.
pub fn get_mac(dev: &Option<NetDev>) -> (r: Option<[u8; 6]>)
    ensures
        r == (match *dev {
            Some(d) => Some(d.mac),
            None => None,
        }),
{
    match dev {
        Some(d) => Some(d.mac),
        None => None,
    }
}

/// The interrupt of the device.
pub fn irq_number(dev: &Option<NetDev>) -> (r: Option<u32>)
    ensures
        r == (match *dev {
            Some(d) => Some(d.irq),
            None => None,
        }),
{
    match dev {
        Some(d) => Some(d.irq),
        None => None,
    }
}

/// Acknowledges an interrupt of the device.
pub fn handle_irq<M: Mmio>(dev: &Option<NetDev>, mmio: &mut M)
    requires
        *dev matches Some(d) ==> d.wf(),
    ensures
        match *dev {
            Some(d) => {
                let t = final(mmio).trace();
                let n = old(mmio).trace().len() as int;
                t == old(mmio).trace() + device::ack_accesses(
                    d.base as int,
                    crate::mmio::value_of(t[n]),
                )
            },
            None => final(mmio).trace() == old(mmio).trace(),
        },
{
    if let Some(d) = dev {
        let _ = device::ack_interrupt(mmio, d.base);
    }
}

// ---------------------------------------------------------------------------
// Receiving
// ---------------------------------------------------------------------------

/// The device names only descriptors that there are, in what was not taken yet.
pub open spec fn names_descriptors(q: QueueModel, used: VirtqUsed) -> bool {
    used.ring@.len() == QUEUE_SIZE && q.pending_below(used, QUEUE_SIZE as int)
}

/// The queue after the buffer of `head` was offered again.
pub open spec fn returned(q: QueueModel, map: Seq<usize>, bufs: Seq<u64>, head: u16) -> QueueModel {
    q.with_desc(head, rx_desc(bufs[map[head as int] as int])).offered(head)
}

/// Bytes of the frame in a buffer of which the device wrote `len` bytes.
pub open spec fn frame_bytes(len: u32) -> int {
    if len < VNET_HDR_SIZE {
        0
    } else {
        len - VNET_HDR_SIZE
    }
}

/// The result of a look for a frame: the queue after it, the frame, and how many
/// buffers were offered again. Frames that are too short are passed over.
pub open spec fn received(q: QueueModel, used: VirtqUsed, map: Seq<usize>, bufs: Seq<u64>) -> (
    QueueModel,
    Option<(u16, int)>,
    nat,
)
    decreases q.pending(used),
{
    match q.next_used(used) {
        None => (q, None, 0),
        Some((head, len)) => {
            let p = q.looked(used);
            if frame_bytes(len) < MIN_FRAME_SIZE {
                let (after, r, n) = received(returned(p, map, bufs, head), used, map, bufs);
                (after, r, n + 1)
            } else {
                (p, Some((head, frame_bytes(len))), 0)
            }
        },
    }
}

/// Offering a buffer again keeps the receive queue well formed.
proof fn lemma_returned(q: QueueModel, map: Seq<usize>, bufs: Seq<u64>, head: u16)
    requires
        q.wf(),
        q.num_free == 0,
        head < q.desc.len(),
    ensures
        returned(q, map, bufs, head).wf(),
        returned(q, map, bufs, head).num_free == 0,
{
}

impl NetDev {
    /// Offers the buffer of `head` again.
    fn resubmit_rx_desc(&mut self, head: u16)
        requires
            old(self).wf(),
            head < QUEUE_SIZE,
        ensures
            final(self).wf(),
            final(self).same_device(*old(self)),
            final(self).tx_queue == old(self).tx_queue,
            final(self).rx_queue@ == returned(
                old(self).rx_queue@,
                old(self).rx_desc_to_buf@,
                old(self).rx_bufs@,
                head,
            ),
    {
        proof {
            lemma_returned(self.rx_queue@, self.rx_desc_to_buf@, self.rx_bufs@, head);
        }
        let buf: usize = self.rx_desc_to_buf[head as usize];
        let pa: u64 = self.rx_bufs[buf];
        self.rx_queue.set_desc(
            head,
            VirtqDesc {
                addr: pa,
                len: RX_BUF_SIZE as u32,
                flags: virtio::VIRTQ_DESC_F_WRITE,
                next: 0,
            },
        );
        self.rx_queue.push_avail(head);
    }

    /// Takes the next frame: its descriptor and length. Also how many buffers were
    /// offered again on the way; the caller notifies the device of queue 0 for
    /// them.
    pub fn poll_recv(&mut self, used: &VirtqUsed) -> (r: (Option<(u16, usize)>, u32))
        requires
            old(self).wf(),
            names_descriptors(old(self).rx_queue@, *used),
        ensures
            final(self).wf(),
            final(self).same_device(*old(self)),
            final(self).tx_queue == old(self).tx_queue,
            ({
                let (q, f, n) = received(
                    old(self).rx_queue@,
                    *used,
                    old(self).rx_desc_to_buf@,
                    old(self).rx_bufs@,
                );
                &&& final(self).rx_queue@ == q
                &&& match r.0 {
                    Some((head, len)) => f == Some((head, len as int)) && head < QUEUE_SIZE,
                    None => f is None,
                }
                &&& r.1 == n
            }),
    {
        let ghost q0 = self.rx_queue@;
        let ghost map = self.rx_desc_to_buf@;
        let ghost bufs = self.rx_bufs@;
        let mut n: u32 = 0;
        loop
            invariant
                self.wf(),
                names_descriptors(self.rx_queue@, *used),
                self.same_device(*old(self)),
                self.tx_queue == old(self).tx_queue,
                q0 == old(self).rx_queue@,
                map == self.rx_desc_to_buf@,
                bufs == self.rx_bufs@,
                n + self.rx_queue@.pending(*used) <= 0x1_0000,
                ({
                    let (qa, fa, na) = received(q0, *used, map, bufs);
                    let (qb, fb, nb) = received(self.rx_queue@, *used, map, bufs);
                    qa == qb && fa == fb && na == nb + n
                }),
            decreases self.rx_queue@.pending(*used),
        {
            let ghost q = self.rx_queue@;
            match self.rx_queue.pop_used(used) {
                None => {
                    return (None, n);
                },
                Some((head, len)) => {
                    proof {
                        queue::law_next_is_pending(q, *used, QUEUE_SIZE as int, self.rx_queue@);
                    }
                    let frame_len: usize = if len < VNET_HDR_SIZE as u32 {
                        0
                    } else {
                        len as usize - VNET_HDR_SIZE
                    };
                    if frame_len >= MIN_FRAME_SIZE {
                        return (Some((head, frame_len)), n);
                    }
                    self.resubmit_rx_desc(head);
                    proof {
                        queue::law_next_is_pending(q, *used, QUEUE_SIZE as int, self.rx_queue@);
                    }
                    n = n + 1;
                },
            }
        }
    }

    /// The receive buffer of a descriptor.
    pub fn rx_buffer(&self, head: u16) -> (r: usize)
        requires
            self.wf(),
            head < QUEUE_SIZE,
        ensures
            r == self.rx_desc_to_buf@[head as int],
            r < QUEUE_SIZE,
    {
        self.rx_desc_to_buf[head as usize]
    }

    /// Offers a buffer again that a reader is done with. The caller then notifies
    /// the device of queue 0.
    pub fn return_rx_buffer(&mut self, head: u16)
        requires
            old(self).wf(),
            head < QUEUE_SIZE,
        ensures
            final(self).wf(),
            final(self).same_device(*old(self)),
            final(self).tx_queue == old(self).tx_queue,
            final(self).rx_queue@ == returned(
                old(self).rx_queue@,
                old(self).rx_desc_to_buf@,
                old(self).rx_bufs@,
                head,
            ),
    {
        self.resubmit_rx_desc(head);
    }
}

/// The frame in a receive buffer.
pub fn get_rx_frame(buf: &[u8], frame_len: usize) -> (r: &[u8])
    requires
        VNET_HDR_SIZE + frame_len <= buf@.len(),
    ensures
        r@ == buf@.subrange(VNET_HDR_SIZE as int, VNET_HDR_SIZE + frame_len),
{
    assert(buf.len() == buf@.len());
    vstd::slice::slice_subrange(buf, VNET_HDR_SIZE, VNET_HDR_SIZE + frame_len)
}

// ---------------------------------------------------------------------------
// Sending
// ---------------------------------------------------------------------------

/// The queue after every chain that the device has used was freed.
pub open spec fn reclaimed(q: QueueModel, used: VirtqUsed) -> QueueModel
    decreases q.pending(used),
    via reclaimed_decreases
{
    match q.next_used(used) {
        None => q,
        Some((head, _)) => reclaimed(q.looked(used).released(head), used),
    }
}

#[via_fn]
proof fn reclaimed_decreases(q: QueueModel, used: VirtqUsed) {
    if let Some((head, _)) = q.next_used(used) {
        queue::law_release(q.looked(used), head);
    }
}

/// Freeing used chains counts no free descriptor less, and at most one more for
/// each chain and each link.
pub proof fn law_reclaim(q: QueueModel, used: VirtqUsed)
    ensures
        q.wf() ==> reclaimed(q, used).wf(),
        q.num_free <= reclaimed(q, used).num_free,
        reclaimed(q, used).num_free <= q.num_free + queue::links(q.desc) + q.pending(used),
        reclaimed(q, used).desc.len() == q.desc.len(),
        reclaimed(q, used).avail_flags == q.avail_flags,
        reclaimed(q, used).avail == q.avail,
        reclaimed(q, used).avail_idx == q.avail_idx,
        reclaimed(q, used).last_used_idx == used.idx,
        reclaimed(q, used).phys_base == q.phys_base,
    decreases q.pending(used),
{
    if let Some((head, _)) = q.next_used(used) {
        queue::law_release(q.looked(used), head);
        law_reclaim(q.looked(used).released(head), used);
    }
}

/// The packet for a frame: a header of zeros, then the frame.
pub open spec fn packet_of(frame: Seq<u8>) -> Seq<u8> {
    Seq::new(10, |i: int| 0u8) + frame
}

/// The queue after a packet of `len` bytes at `pa` was put on it.
pub open spec fn queued(q: QueueModel, pa: u64, len: int) -> QueueModel {
    q.taken().with_desc(
        q.free_head,
        VirtqDesc { addr: pa, len: len as u32, flags: 0, next: 0 },
    ).offered(q.free_head)
}

/// A frame on its way.
pub struct TxJob {
    /// What goes into the transmit buffer.
    pub packet: Vec<u8>,
    /// Looks at the used ring so far.
    pub spins: u32,
}

impl NetDev {
    /// Frees every chain that the device has sent.
    fn reclaim(&mut self, used: &VirtqUsed)
        requires
            old(self).wf(),
            used.ring@.len() == old(self).tx_queue.num,
            reclaimed(old(self).tx_queue@, *used).num_free <= u16::MAX,
        ensures
            final(self).wf(),
            final(self).same_device(*old(self)),
            final(self).rx_queue == old(self).rx_queue,
            final(self).tx_queue@ == reclaimed(old(self).tx_queue@, *used),
    {
        loop
            invariant
                self.wf(),
                self.same_device(*old(self)),
                self.rx_queue == old(self).rx_queue,
                used.ring@.len() == self.tx_queue.num,
                reclaimed(self.tx_queue@, *used) == reclaimed(old(self).tx_queue@, *used),
                reclaimed(old(self).tx_queue@, *used).num_free <= u16::MAX,
            decreases self.tx_queue@.pending(*used),
        {
            let ghost q = self.tx_queue@;
            match self.tx_queue.pop_used(used) {
                None => {
                    return;
                },
                Some((head, _)) => {
                    proof {
                        queue::law_release(q.looked(*used), head);
                        law_reclaim(q.looked(*used).released(head), *used);
                    }
                    self.tx_queue.free_chain(head);
                },
            }
        }
    }

    /// Puts a frame on the transmit queue. One that is too long, or for which no
    /// descriptor is free, is dropped. The caller copies the packet into the
    /// transmit buffer, hands the queue to the device and notifies it of queue 1.
    pub fn send_packet(&mut self, frame: &[u8], used: &VirtqUsed) -> (r: Option<TxJob>)
        requires
            old(self).wf(),
            used.ring@.len() == old(self).tx_queue.num,
            reclaimed(old(self).tx_queue@, *used).num_free <= u16::MAX,
        ensures
            final(self).wf(),
            final(self).same_device(*old(self)),
            final(self).rx_queue == old(self).rx_queue,
            ({
                let q = reclaimed(old(self).tx_queue@, *used);
                if frame@.len() > MAX_FRAME_SIZE {
                    r is None && final(self).tx_queue == old(self).tx_queue
                } else if q.num_free == 0 {
                    r is None && final(self).tx_queue@ == q
                } else {
                    &&& r is Some
                    &&& r->0.packet@ == packet_of(frame@)
                    &&& r->0.spins == 0
                    &&& final(self).tx_queue@ == queued(
                        q,
                        old(self).tx_buf,
                        packet_of(frame@).len() as int,
                    )
                }
            }),
    {
        if frame.len() > MAX_FRAME_SIZE {
            return None;
        }
        self.reclaim(used);
        let d: u16 = match self.tx_queue.alloc_desc() {
            Some(d) => d,
            None => {
                return None;
            },
        };
        let mut packet: Vec<u8> = Vec::new();
        bytes::push_zeros(&mut packet, VNET_HDR_SIZE);
        bytes::push_all(&mut packet, frame);
        assert(packet@ =~= packet_of(frame@));
        self.tx_queue.set_desc(
            d,
            VirtqDesc { addr: self.tx_buf, len: packet.len() as u32, flags: 0, next: 0 },
        );
        self.tx_queue.push_avail(d);
        Some(TxJob { packet, spins: 0 })
    }

    /// One look at whether the device has sent the frame: whether the wait is
    /// over, because it has or because it took too long.
    pub fn poll_sent(&mut self, job: &mut TxJob, used: &VirtqUsed) -> (done: bool)
        requires
            old(self).wf(),
            used.ring@.len() == old(self).tx_queue.num,
            old(job).spins < TX_POLL_LIMIT,
            old(self).tx_queue@.counts(*used),
        ensures
            final(self).wf(),
            final(self).same_device(*old(self)),
            final(self).rx_queue == old(self).rx_queue,
            match old(self).tx_queue@.next_used(*used) {
                Some((head, _)) => {
                    &&& done
                    &&& final(self).tx_queue@ == old(self).tx_queue@.looked(*used).released(head)
                    &&& *final(job) == *old(job)
                },
                None => {
                    &&& done == (old(job).spins + 1 == TX_POLL_LIMIT)
                    &&& final(self).tx_queue@ == old(self).tx_queue@
                    &&& final(job).spins == old(job).spins + 1
                    &&& final(job).packet == old(job).packet
                },
            },
    {
        match self.tx_queue.pop_used(used) {
            Some((head, _)) => {
                self.tx_queue.free_chain(head);
                true
            },
            None => {
                job.spins = job.spins + 1;
                job.spins == TX_POLL_LIMIT
            },
        }
    }
}

/// A frame that was sent and answered leaves as many descriptors free as there
/// were.
pub proof fn law_send_gives_back(q: QueueModel, pa: u64, len: int)
    requires
        q.orderly(),
        q.num_free > 0,
        0 <= len <= u32::MAX,
    ensures
        queued(q, pa, len).orderly(),
        queued(q, pa, len).num_free == q.num_free - 1,
        queued(q, pa, len).released(q.free_head).num_free == q.num_free,
        queued(q, pa, len).released(q.free_head).orderly(),
        queued(q, pa, len).released(q.free_head).free() == q.free(),
{
    queue::law_take(q);
    let d = VirtqDesc { addr: pa, len: len as u32, flags: 0, next: 0 };
    queue::law_fill(q.taken(), q.free_head, d);
    let w = q.taken().with_desc(q.free_head, d);
    let s = queued(q, pa, len);
    assert(s.free() == w.free());
    let chain = seq![q.free_head];
    assert(queue::is_chain(s, chain));
    queue::law_chain_is_released(s, chain);
    assert(chain.reverse() + s.free() =~= q.free());
}

/// A frame that is sent, as the device finds it: the ring's next slot names a single buffer
/// that the device only reads, with ten bytes of zeros and then the frame.
pub proof fn law_frame_reaches_the_device(q: QueueModel, pa: u64, frame: Seq<u8>)
    requires
        q.orderly(),
        q.num_free > 0,
        frame.len() + 10 <= u32::MAX,
    ensures
        ({
            let p = packet_of(frame);
            let after = queued(q, pa, p.len() as int);
            let slot = q.avail_idx as int % q.desc.len() as int;
            let d = after.desc[after.avail[slot] as int];
            &&& after.avail_idx == (q.avail_idx + 1) % 0x1_0000
            &&& d.addr == pa
            &&& d.len == frame.len() + 10
            &&& d.flags == 0
            &&& p.len() == frame.len() + 10
            &&& p.skip(10) == frame
            &&& forall|i: int| 0 <= i < 10 ==> #[trigger] p[i] == 0
            &&& forall|k: int|
                0 <= k < q.desc.len() && k != slot ==> #[trigger] after.avail[k] == q.avail[k]
        }),
{
    assert(packet_of(frame).skip(10) =~= frame);
    let slot = q.avail_idx as int % q.desc.len() as int;
    assert(0 <= slot < q.desc.len());
}

/// A frame that has come: of the first buffer that the device has used, the ten bytes of its
/// own header are left out, and what is left is a frame where it has at least 14 bytes. A
/// shorter one is passed over: its buffer is offered again for 1536 bytes of the device's,
/// and the next one counts.
pub proof fn law_frame_is_received(q: QueueModel, used: VirtqUsed, map: Seq<usize>, bufs: Seq<u64>)
    requires
        q.wf(),
        used.ring@.len() == q.desc.len(),
        used.idx != q.last_used_idx,
    ensures
        ({
            let e = used.ring@[q.last_used_idx as int % q.desc.len() as int];
            let head = (e.id % 0x1_0000) as u16;
            let p = q.looked(used);
            let again = returned(p, map, bufs, head);
            &&& e.len >= 24 ==> received(q, used, map, bufs) == (
                p,
                Some((head, e.len - 10)),
                0nat,
            )
            &&& e.len < 24 ==> received(q, used, map, bufs).1 == received(
                again,
                used,
                map,
                bufs,
            ).1
            &&& head < q.desc.len() ==> again.desc[head as int].addr == bufs[map[head as int] as int]
                && again.desc[head as int].len == 1536 && again.desc[head as int].flags == 2
                && again.avail_idx == (q.avail_idx + 1) % 0x1_0000
        }),
{
    let n = q.desc.len() as int;
    assert(0 <= q.avail_idx as int % n < n);
}

/// The hardware address stands in the device's registers byte by byte, the first byte in the
/// lowest bits of the first word.
pub proof fn law_hardware_address(w0: u32, w1: u32)
    ensures
        mac_in(w0, w1).len() == 6,
        crate::bytes::le32_at(mac_in(w0, w1), 0) == w0,
        crate::bytes::le16_at(mac_in(w0, w1), 4) == w1 as int % 0x1_0000,
{
    let x = w0 as int;
    assert(x / 0x1_0000 == x / 0x100 / 0x100);
    assert(x / 0x100_0000 == x / 0x1_0000 / 0x100);
    let y = w1 as int;
    assert(y % 0x1_0000 == y % 0x100 + y / 0x100 % 0x100 * 0x100);
}

} // verus!
