//! The virtio block device.
//!
//! A request is begun, its descriptors and header are handed to the device, and
//! the used ring is polled until the device has answered.
use crate::bytes;
use crate::mem::PAGE_SIZE;
use crate::mmio::{Access, Mmio};
use crate::platform::gic::Gic;
use crate::platform::gic::gicd;
use crate::platform::qemu_virt::virtio;
use crate::platform::qemu_virt::virtio::device;
use crate::platform::qemu_virt::virtio::queue;
use crate::platform::qemu_virt::virtio::queue::{QueueModel, VirtqDesc, VirtqUsed, Virtqueue};
use vstd::arithmetic::power2::pow2;
use vstd::prelude::*;

verus! {

/// Bytes in a sector.
pub const SECTOR_SIZE: usize = 512;

/// Descriptors in the request queue.
pub const QUEUE_SIZE: u16 = 16;

/// How often the used ring is polled before the device counts as dead.
pub const POLL_LIMIT: u32 = 10_000_000;

pub const VIRTIO_BLK_T_IN: u32 = 0;

pub const VIRTIO_BLK_T_OUT: u32 = 1;

pub const VIRTIO_BLK_S_OK: u8 = 0;

pub const VIRTIO_BLK_S_IOERR: u8 = 1;

/// Why a request failed.
#[derive(Clone, Copy, PartialEq, Eq, Structural, Debug)]
pub enum BlkError {
    NoDevice,
    InvalidSize,
    OutOfRange,
    IoError,
    DeviceFailed,
}

/// What a failure means to a user of a storage device.
#[derive(Clone, Copy, PartialEq, Eq, Structural, Debug)]
pub enum StorageError {
    OutOfRange,
    NotReady,
    IoError,
}

/// The block device, as a storage device.
pub struct VirtioBlk;

impl VirtioBlk {
    /// What a failure means to a user of the storage device.
    pub fn map_error(e: BlkError) -> (r: StorageError)
        ensures
            r == (match e {
                BlkError::OutOfRange => StorageError::OutOfRange,
                BlkError::NoDevice => StorageError::NotReady,
                _ => StorageError::IoError,
            }),
    {
        match e {
            BlkError::OutOfRange => StorageError::OutOfRange,
            BlkError::NoDevice => StorageError::NotReady,
            _ => StorageError::IoError,
        }
    }
}

/// A block device that has been set up.
pub struct BlkDevice {
    /// Offset of its transport.
    pub base: usize,
    /// Sectors.
    pub capacity: u64,
    /// The request queue.
    pub queue: Virtqueue,
    /// Its interrupt.
    pub irq: u32,
}

impl BlkDevice {
    /// The transport is one there is, and the queue is well formed.
    pub open spec fn wf(&self) -> bool {
        self.queue.wf() && self.base <= usize::MAX - virtio::TRANSPORT_SIZE
    }
}

// ---------------------------------------------------------------------------
// Setup
// ---------------------------------------------------------------------------

/// From `t0` to `t1` the device at transport `i` was set up, with its queue at
/// `buf_pa`. A device without sectors is not used.
pub open spec fn initialised(
    t0: Seq<Access>,
    t1: Seq<Access>,
    base: int,
    i: int,
    buf_pa: u64,
    r: Option<BlkDevice>,
) -> bool {
    exists|host: u32, readback: u32, capacity: u64, max: u32, status: u32|
        #[trigger] initialised_with(
            t0,
            t1,
            base,
            i,
            buf_pa,
            r,
            host,
            readback,
            capacity,
            max,
            status,
        )
}

/// The same, with what the device answered.
pub open spec fn initialised_with(
    t0: Seq<Access>,
    t1: Seq<Access>,
    base: int,
    i: int,
    buf_pa: u64,
    r: Option<BlkDevice>,
    host: u32,
    readback: u32,
    capacity: u64,
    max: u32,
    status: u32,
) -> bool {
    let ta = t0 + device::setup_accesses(base, 0, host, readback);
    let config = base + virtio::regs::CONFIG;
    let tb = ta.push(Access::Read(config, (capacity % 0x1_0000_0000) as u32)).push(
        Access::Read(config + 4, (capacity / 0x1_0000_0000) as u32),
    );
    let tc = tb + device::queue_accesses(base, 0, QUEUE_SIZE, buf_pa, PAGE_SIZE as u32, max)
        + device::ready_accesses(base, status);
    if device::agreed(0, host, readback) is None {
        t1 == ta && r is None
    } else if capacity == 0 {
        t1 == tb && r is None
    } else {
        &&& t1 == tc
        &&& r matches Some(d) && d.base == base && d.capacity == capacity && d.irq
            == virtio::VIRTIO_IRQ_BASE + i && d.wf() && d.queue@ == queue::fresh(QUEUE_SIZE, buf_pa)
    }
}

/// The distributor after the interrupt of transport `i` was enabled.
pub open spec fn irq_enabled(t: Seq<Access>, i: int) -> Seq<Access> {
    let irq = virtio::VIRTIO_IRQ_BASE + i;
    t.push(Access::Write(gicd::ISENABLER + irq / 32 * 4, pow2((irq % 32) as nat) as u32))
}

/// Sets the block device at transport `i` up.
fn init_block_device<M: Mmio, D: Mmio, R: Mmio>(
    mmio: &mut M,
    gic: &mut Gic<D, R>,
    base: usize,
    i: usize,
    buf_pa: u64,
) -> (r: Option<BlkDevice>)
    requires
        base <= usize::MAX - virtio::TRANSPORT_SIZE,
        i < virtio::NUM_TRANSPORTS,
    ensures
        initialised(old(mmio).trace(), final(mmio).trace(), base as int, i as int, buf_pa, r),
        final(gic).gicr.trace() == old(gic).gicr.trace(),
        final(gic).gicd.trace() == (if r is Some {
            irq_enabled(old(gic).gicd.trace(), i as int)
        } else {
            old(gic).gicd.trace()
        }),
{
    let ghost t0 = mmio.trace();
    let ghost n = t0.len() as int;
    let agreed: Option<u32> = device::init_device(mmio, base, 0);
    let ghost ta = mmio.trace();
    let ghost host = crate::mmio::value_of(ta[n + 4]);
    let ghost readback = crate::mmio::value_of(ta[n + 9]);
    if agreed.is_none() {
        assert(initialised_with(
            t0,
            ta,
            base as int,
            i as int,
            buf_pa,
            None,
            host,
            readback,
            0,
            0,
            0,
        ));
        return None;
    }
    let capacity: u64 = device::read_config_u64(mmio, base, 0);
    let ghost tb = mmio.trace();
    if capacity == 0 {
        assert(initialised_with(
            t0,
            tb,
            base as int,
            i as int,
            buf_pa,
            None,
            host,
            readback,
            capacity,
            0,
            0,
        ));
        return None;
    }
    let queue: Virtqueue = Virtqueue::init(buf_pa, QUEUE_SIZE);
    device::setup_queue(mmio, base, 0, &queue, PAGE_SIZE as u32);
    let ghost max = crate::mmio::value_of(mmio.trace()[tb.len() as int + 1]);
    let ghost tc = mmio.trace();
    device::driver_ok(mmio, base);
    let ghost status = crate::mmio::value_of(mmio.trace()[tc.len() as int]);
    let irq: u32 = virtio::VIRTIO_IRQ_BASE + i as u32;
    gic.enable_irq(irq);
    let r: Option<BlkDevice> = Some(BlkDevice { base, capacity, queue, irq });
    assert(initialised_with(
        t0,
        mmio.trace(),
        base as int,
        i as int,
        buf_pa,
        r,
        host,
        readback,
        capacity,
        max,
        status,
    ));
    r
}

/// From `t0` to `t1` the transports from `from` on were searched for a block
/// device that could be set up.
pub open spec fn probed(
    t0: Seq<Access>,
    t1: Seq<Access>,
    base: int,
    from: int,
    buf_pa: u64,
    r: Option<BlkDevice>,
) -> bool
    decreases virtio::NUM_TRANSPORTS - from,
{
    exists|tm: Seq<Access>, at: Option<usize>|
        {
            &&& #[trigger] device::searched(t0, tm, base, from, virtio::DEVICE_ID_BLOCK, at)
            &&& match at {
                None => t1 == tm && r is None,
                Some(i) => exists|ta: Seq<Access>, ri: Option<BlkDevice>|
                    {
                        &&& #[trigger] initialised(
                            tm,
                            ta,
                            device::transport_at(base, i as int),
                            i as int,
                            buf_pa,
                            ri,
                        )
                        &&& if ri is Some {
                            t1 == ta && r == ri
                        } else {
                            from <= i && i < virtio::NUM_TRANSPORTS && probed(
                                ta,
                                t1,
                                base,
                                i + 1,
                                buf_pa,
                                r,
                            )
                        }
                    },
            }
        }
}

/// Searches the transports from `from` on.
fn probe_from<M: Mmio, D: Mmio, R: Mmio>(
    mmio: &mut M,
    gic: &mut Gic<D, R>,
    base: usize,
    from: usize,
    buf_pa: u64,
) -> (r: Option<BlkDevice>)
    requires
        base <= usize::MAX - 0x8000,
        from <= virtio::NUM_TRANSPORTS,
    ensures
        probed(old(mmio).trace(), final(mmio).trace(), base as int, from as int, buf_pa, r),
        final(gic).gicr.trace() == old(gic).gicr.trace(),
        final(gic).gicd.trace() == (match r {
            Some(d) => irq_enabled(
                old(gic).gicd.trace(),
                d.irq - virtio::VIRTIO_IRQ_BASE,
            ),
            None => old(gic).gicd.trace(),
        }),
        r matches Some(d) ==> d.wf() && d.capacity > 0,
    decreases virtio::NUM_TRANSPORTS - from,
{
    match device::next_transport(mmio, base, from, virtio::DEVICE_ID_BLOCK) {
        None => None,
        Some(i) => {
            match init_block_device(mmio, gic, base + i * virtio::TRANSPORT_SIZE, i, buf_pa) {
                Some(d) => Some(d),
                None => probe_from(mmio, gic, base, i + 1, buf_pa),
            }
        },
    }
}

/// Sets up the first block device that works, with its queue at `buf_pa`.
pub fn probe_and_init<M: Mmio, D: Mmio, R: Mmio>(
    mmio: &mut M,
    gic: &mut Gic<D, R>,
    base: usize,
    buf_pa: u64,
) -> (r: Option<BlkDevice>)
    requires
        base <= usize::MAX - 0x8000,
    ensures
        probed(old(mmio).trace(), final(mmio).trace(), base as int, 0, buf_pa, r),
        final(gic).gicr.trace() == old(gic).gicr.trace(),
        final(gic).gicd.trace() == (match r {
            Some(d) => irq_enabled(
                old(gic).gicd.trace(),
                d.irq - virtio::VIRTIO_IRQ_BASE,
            ),
            None => old(gic).gicd.trace(),
        }),
        r matches Some(d) ==> d.wf() && d.capacity > 0,
{
    probe_from(mmio, gic, base, 0, buf_pa)
}

// ---------------------------------------------------------------------------
// The device
// ---------------------------------------------------------------------------

/// Sectors of the device; 0 without one.
pub fn capacity(dev: &Option<BlkDevice>) -> (r: u64)
    ensures
        r == (match *dev {
            Some(d) => d.capacity,
            None => 0,
        }),
{
    match dev {
        Some(d) => d.capacity,
        None => 0,
    }
}

/// There is a block device.
pub fn is_available(dev: &Option<BlkDevice>) -> (r: bool)
    ensures
        r == (*dev is Some),
{
    dev.is_some()
}

/// The interrupt of the device.
pub fn irq_number(dev: &Option<BlkDevice>) -> (r: Option<u32>)
    ensures
        r == (match *dev {
            Some(d) => Some(d.irq),
            None => None,
        }),
{
    match dev {
        Some(d) => Some(d.irq),
        None => None,
    }
}

/// Acknowledges an interrupt of the device.
pub fn handle_irq<M: Mmio>(dev: &Option<BlkDevice>, mmio: &mut M)
    requires
        *dev matches Some(d) ==> d.wf(),
    ensures
        match *dev {
            Some(d) => {
                let t = final(mmio).trace();
                let n = old(mmio).trace().len() as int;
                t == old(mmio).trace() + device::ack_accesses(
                    d.base as int,
                    crate::mmio::value_of(t[n]),
                )
            },
            None => final(mmio).trace() == old(mmio).trace(),
        },
{
    if let Some(d) = dev {
        let _ = device::ack_interrupt(mmio, d.base);
    }
}

/// Why a request for `len` bytes from sector `lba` on is refused.
pub open spec fn refused(dev: Option<BlkDevice>, lba: u64, len: int) -> Option<BlkError> {
    if len % 512 != 0 || len == 0 {
        Some(BlkError::InvalidSize)
    } else {
        match dev {
            None => Some(BlkError::NoDevice),
            Some(d) => if lba + len / 512 > d.capacity {
                Some(BlkError::OutOfRange)
            } else {
                None
            },
        }
    }
}

/// The checks before a request.
pub fn check_request(dev: &Option<BlkDevice>, lba: u64, len: usize) -> (r: Result<(), BlkError>)
    ensures
        match r {
            Ok(()) => refused(*dev, lba, len as int) is None,
            Err(e) => refused(*dev, lba, len as int) == Some(e),
        },
{
    let count: usize = len / SECTOR_SIZE;
    if len % SECTOR_SIZE != 0 || count == 0 {
        return Err(BlkError::InvalidSize);
    }
    match dev {
        None => Err(BlkError::NoDevice),
        Some(d) => {
            if lba > d.capacity || count as u64 > d.capacity - lba {
                Err(BlkError::OutOfRange)
            } else {
                Ok(())
            }
        },
    }
}

/// The header of a request, as the device reads it: kind, a reserved word, and
/// the first sector, each with the least significant byte first.
pub fn request_header(write: bool, sector: u64) -> (r: Vec<u8>)
    ensures
        r@.len() == 16,
        bytes::le32_at(r@, 0) == (if write {
            VIRTIO_BLK_T_OUT
        } else {
            VIRTIO_BLK_T_IN
        }),
        bytes::le32_at(r@, 4) == 0,
        bytes::le64_at(r@, 8) == sector,
{
    let kind: u32 = if write {
        VIRTIO_BLK_T_OUT
    } else {
        VIRTIO_BLK_T_IN
    };
    let mut r: Vec<u8> = Vec::new();
    bytes::push_le32(&mut r, kind);
    let ghost a = r@;
    bytes::push_le32(&mut r, 0);
    let ghost b = r@;
    bytes::push_le32(&mut r, (sector % 0x1_0000_0000) as u32);
    let ghost c = r@;
    bytes::push_le32(&mut r, (sector / 0x1_0000_0000) as u32);
    proof {
        assert forall|i: int| 0 <= i < 4 implies r@[i] == a[i] by {
            assert(r@.take(12)[i] == c[i] && c.take(8)[i] == b[i] && b.take(4)[i] == a[i]);
        }
        assert forall|i: int| 4 <= i < 8 implies r@[i] == b[i] by {
            assert(r@.take(12)[i] == c[i] && c.take(8)[i] == b[i]);
        }
        assert forall|i: int| 8 <= i < 12 implies r@[i] == c[i] by {
            assert(r@.take(12)[i] == c[i]);
        }
    }
    r
}

/// Where the parts of a request are in memory.
#[derive(Clone, Copy)]
pub struct Buffers {
    pub header: u64,
    pub data: u64,
    pub data_len: usize,
    pub status: u64,
}

/// The descriptors of a request: header, data, and the status byte that the
/// device writes. The device writes the data of a read.
pub open spec fn request_descs(write: bool, b: Buffers, d1: u16, d2: u16) -> (
    VirtqDesc,
    VirtqDesc,
    VirtqDesc,
) {
    (
        VirtqDesc { addr: b.header, len: 16, flags: virtio::VIRTQ_DESC_F_NEXT, next: d1 },
        VirtqDesc {
            addr: b.data,
            len: (b.data_len as int % 0x1_0000_0000) as u32,
            flags: if write {
                virtio::VIRTQ_DESC_F_NEXT
            } else {
                (virtio::VIRTQ_DESC_F_NEXT + virtio::VIRTQ_DESC_F_WRITE) as u16
            },
            next: d2,
        },
        VirtqDesc { addr: b.status, len: 1, flags: virtio::VIRTQ_DESC_F_WRITE, next: 0 },
    )
}

/// The three descriptors that a request takes.
pub open spec fn request_chain(q: QueueModel) -> Seq<u16> {
    seq![q.free_head, q.taken().free_head, q.taken().taken().free_head]
}

/// The queue after a request was put on it; with fewer than three free
/// descriptors none is taken.
pub open spec fn begun(q: QueueModel, write: bool, b: Buffers) -> QueueModel {
    let c = request_chain(q);
    if q.num_free == 0 {
        q
    } else if q.num_free == 1 {
        q.taken().freed(c[0])
    } else if q.num_free == 2 {
        q.taken().taken().freed(c[1]).freed(c[0])
    } else {
        let (x, y, z) = request_descs(write, b, c[1], c[2]);
        q.taken().taken().taken().with_desc(c[0], x).with_desc(c[1], y).with_desc(c[2], z).offered(
            c[0],
        )
    }
}

/// A request that the device works on.
pub struct BlkRequest {
    /// Head of its chain.
    pub head: u16,
    /// Looks at the used ring so far.
    pub spins: u32,
}

/// Taking the first three descriptors: they are different, and in use.
proof fn lemma_three_taken(q: QueueModel)
    requires
        q.orderly(),
        q.num_free >= 3,
    ensures
        ({
            let c = request_chain(q);
            let t = q.taken().taken().taken();
            &&& t.orderly()
            &&& t.in_use(c[0]) && t.in_use(c[1]) && t.in_use(c[2])
            &&& c[0] != c[1] && c[1] != c[2] && c[0] != c[2]
            &&& t.free() == q.free().skip(3)
            &&& q.free().take(3) == c
            &&& q.free().len() == q.num_free
        }),
{
    let c = request_chain(q);
    let s = q.free();
    queue::law_take(q);
    queue::law_take(q.taken());
    queue::law_take(q.taken().taken());
    let t = q.taken().taken().taken();
    assert(q.taken().free() == s.skip(1));
    assert(q.taken().taken().free() =~= s.skip(2));
    assert(t.free() =~= s.skip(3));
    assert(c[1] == s.skip(1)[0] && c[2] == s.skip(2)[0]);
    assert(c[0] == s[0] && c[1] == s[1] && c[2] == s[2]);
    assert(s.take(3) =~= c);
    assert forall|k: int| 0 <= k < 3 implies !t.free().contains(#[trigger] c[k]) by {
        if t.free().contains(c[k]) {
            let i = t.free().index_of(c[k]);
            assert(s.skip(3)[i] == s[i + 3]);
            assert(s[i + 3] == s[k]);
        }
    }
    assert(!t.free().contains(c[0]) && !t.free().contains(c[1]) && !t.free().contains(c[2]));
}

/// A request takes three descriptors that hang together as a chain.
pub proof fn law_request_is_a_chain(q: QueueModel, write: bool, b: Buffers)
    requires
        q.orderly(),
        q.num_free >= 3,
    ensures
        begun(q, write, b).orderly(),
        begun(q, write, b).num_free == q.num_free - 3,
        begun(q, write, b).free() == q.free().skip(3),
        queue::is_chain(begun(q, write, b), request_chain(q)),
{
    lemma_three_taken(q);
    let c = request_chain(q);
    let (x, y, z) = request_descs(write, b, c[1], c[2]);
    let t = q.taken().taken().taken();
    queue::law_fill(t, c[0], x);
    let u = t.with_desc(c[0], x);
    queue::law_fill(u, c[1], y);
    let v = u.with_desc(c[1], y);
    queue::law_fill(v, c[2], z);
    let w = v.with_desc(c[2], z);
    assert(w.offered(c[0]) == begun(q, write, b));
    assert(begun(q, write, b).free() == t.free());
    assert(c.no_duplicates());
}

/// A request as the device finds it. The ring's next slot names the first descriptor of a
/// chain of three: the 16 bytes of the header and the data, which lead on (bit 0 of the flags),
/// and the status byte, which does not. The device writes (bit 1) the status, and of a read the
/// data; it reads the header, and of a write the data. No descriptor of another request and no
/// other slot changes.
pub proof fn law_request_reaches_the_device(q: QueueModel, write: bool, b: Buffers)
    requires
        q.orderly(),
        q.num_free >= 3,
        b.data_len < 0x1_0000_0000,
    ensures
        ({
            let after = begun(q, write, b);
            let slot = q.avail_idx as int % q.desc.len() as int;
            let h = after.desc[after.avail[slot] as int];
            let d = after.desc[h.next as int];
            let s = after.desc[d.next as int];
            &&& after.avail_idx == (q.avail_idx + 1) % 0x1_0000
            &&& after.desc.len() == q.desc.len()
            &&& h.addr == b.header
            &&& h.len == 16
            &&& h.flags == 1
            &&& d.addr == b.data
            &&& d.len == b.data_len
            &&& d.flags == (if write {
                1u16
            } else {
                3
            })
            &&& s.addr == b.status
            &&& s.len == 1
            &&& s.flags == 2
            &&& after.last_used_idx == q.last_used_idx
            &&& forall|k: int|
                0 <= k < q.desc.len() && k != slot ==> #[trigger] after.avail[k] == q.avail[k]
            &&& forall|i: u16| q.in_use(i) ==> #[trigger] after.desc[i as int] == q.desc[i as int]
        }),
{
    lemma_three_taken(q);
    let c = request_chain(q);
    let after = begun(q, write, b);
    let slot = q.avail_idx as int % q.desc.len() as int;
    assert(0 <= slot < q.desc.len());
    assert(after.avail[slot] == c[0]);
    assert(c.no_duplicates());
    assert(c[0] != c[1] && c[0] != c[2] && c[1] != c[2]);
    queue::law_take(q);
    queue::law_take(q.taken());
    queue::law_take(q.taken().taken());
    assert forall|i: u16| q.in_use(i) implies #[trigger] after.desc[i as int] == q.desc[i as int] by {
        let f = q.free();
        assert(f[0] == c[0]);
        assert(q.taken().free()[0] == c[1] && f[1] == c[1]);
        assert(q.taken().taken().free()[0] == c[2] && f.skip(1).skip(1)[0] == c[2] && f[2] == c[2]);
        assert(i != f[0] && i != f[1] && i != f[2]);
    }
}

/// What the status byte means: 0 is success, 1 an error of the device's medium, and anything
/// else a device that failed.
pub proof fn law_status_byte(status: u8)
    ensures
        outcome(status) is Ok <==> status == 0,
        outcome(status) == Err::<(), BlkError>(BlkError::IoError) <==> status == 1,
        outcome(status) == Err::<(), BlkError>(BlkError::DeviceFailed) <==> status > 1,
{
}

/// A request is let through exactly where it is for whole sectors, at least one, that lie on
/// the device.
pub proof fn law_requests_stay_on_the_device(dev: Option<BlkDevice>, lba: u64, len: int)
    requires
        len >= 0,
    ensures
        refused(dev, lba, len) is None <==> dev is Some && len > 0 && len % 512 == 0 && lba + len
            / 512 <= dev->0.capacity,
{
}

/// When the device has answered, the descriptors of the request are free again,
/// and no others are.
pub proof fn law_request_gives_back(q: QueueModel, write: bool, b: Buffers)
    requires
        q.orderly(),
        q.num_free >= 3,
    ensures
        ({
            let c = request_chain(q);
            let after = begun(q, write, b).released(c[0]);
            &&& after.orderly()
            &&& after.num_free == q.num_free
            &&& after.free() == seq![c[2], c[1], c[0]] + q.free().skip(3)
        }),
{
    law_request_is_a_chain(q, write, b);
    let c = request_chain(q);
    queue::law_chain_is_released(begun(q, write, b), c);
    assert(c.reverse() =~= seq![c[2], c[1], c[0]]);
}

impl BlkDevice {
    /// Puts a request on the queue. The caller then hands the queue to the device
    /// and notifies it.
    pub fn begin(&mut self, write: bool, b: Buffers) -> (r: Result<BlkRequest, BlkError>)
        requires
            old(self).wf(),
        ensures
            final(self).wf(),
            final(self).base == old(self).base,
            final(self).capacity == old(self).capacity,
            final(self).irq == old(self).irq,
            final(self).queue@ == begun(old(self).queue@, write, b),
            match r {
                Ok(q) => old(self).queue@.num_free >= 3 && q.spins == 0 && q.head
                    == old(self).queue@.free_head,
                Err(e) => old(self).queue@.num_free < 3 && e == BlkError::DeviceFailed,
            },
    {
        let d0: u16 = match self.queue.alloc_desc() {
            Some(d) => d,
            None => {
                return Err(BlkError::DeviceFailed);
            },
        };
        let d1: u16 = match self.queue.alloc_desc() {
            Some(d) => d,
            None => {
                self.queue.free_desc(d0);
                return Err(BlkError::DeviceFailed);
            },
        };
        let d2: u16 = match self.queue.alloc_desc() {
            Some(d) => d,
            None => {
                self.queue.free_desc(d1);
                self.queue.free_desc(d0);
                return Err(BlkError::DeviceFailed);
            },
        };
        let data_flags: u16 = if write {
            virtio::VIRTQ_DESC_F_NEXT
        } else {
            virtio::VIRTQ_DESC_F_NEXT + virtio::VIRTQ_DESC_F_WRITE
        };
        proof {
            assert(b.data_len as u64 % 0x1_0000_0000 == b.data_len as int % 0x1_0000_0000);
        }
        self.queue.set_desc(
            d0,
            VirtqDesc { addr: b.header, len: 16, flags: virtio::VIRTQ_DESC_F_NEXT, next: d1 },
        );
        self.queue.set_desc(
            d1,
            VirtqDesc {
                addr: b.data,
                len: (b.data_len as u64 % 0x1_0000_0000) as u32,
                flags: data_flags,
                next: d2,
            },
        );
        self.queue.set_desc(
            d2,
            VirtqDesc { addr: b.status, len: 1, flags: virtio::VIRTQ_DESC_F_WRITE, next: 0 },
        );
        self.queue.push_avail(d0);
        Ok(BlkRequest { head: d0, spins: 0 })
    }

    /// One look at the used ring, and at the status byte, for a request: its
    /// result, once the device has answered or counts as dead.
    pub fn poll(&mut self, req: &mut BlkRequest, used: &VirtqUsed, status: u8) -> (r: Option<
        Result<(), BlkError>,
    >)
        requires
            old(self).wf(),
            used.ring@.len() == old(self).queue.num,
            old(req).spins <= POLL_LIMIT,
            old(self).queue@.counts(*used),
        ensures
            final(self).wf(),
            final(self).base == old(self).base,
            final(self).capacity == old(self).capacity,
            final(self).irq == old(self).irq,
            final(self).queue.num == old(self).queue.num,
            final(req).head == old(req).head,
            match old(self).queue@.next_used(*used) {
                Some((head, _)) => {
                    &&& final(self).queue@ == old(self).queue@.looked(*used).released(head)
                    &&& final(req).spins == old(req).spins
                    &&& r == Some(outcome(status))
                },
                None => {
                    &&& final(self).queue@ == old(self).queue@
                    &&& final(req).spins == old(req).spins + 1
                    &&& r == (if old(req).spins + 1 > POLL_LIMIT {
                        Some(Err::<(), BlkError>(BlkError::DeviceFailed))
                    } else {
                        None
                    })
                },
            },
    {
        match self.queue.pop_used(used) {
            Some((head, _)) => {
                self.queue.free_chain(head);
                Some(
                    match status {
                        VIRTIO_BLK_S_OK => Ok(()),
                        VIRTIO_BLK_S_IOERR => Err(BlkError::IoError),
                        _ => Err(BlkError::DeviceFailed),
                    },
                )
            },
            None => {
                req.spins = req.spins + 1;
                if req.spins > POLL_LIMIT {
                    Some(Err(BlkError::DeviceFailed))
                } else {
                    None
                }
            },
        }
    }
}

/// What a status byte says.
pub open spec fn outcome(status: u8) -> Result<(), BlkError> {
    if status == VIRTIO_BLK_S_OK {
        Ok(())
    } else if status == VIRTIO_BLK_S_IOERR {
        Err(BlkError::IoError)
    } else {
        Err(BlkError::DeviceFailed)
    }
}

} // verus!
