//! Discovery and setup of devices.
//!
//! `base` is the offset of a transport in the window of registers.
use crate::mem::PAGE_SIZE;
use crate::mmio;
use crate::mmio::{Access, Mmio};
use crate::platform::qemu_virt::virtio::queue::Virtqueue;
use crate::platform::qemu_virt::virtio::{
    regs, NUM_TRANSPORTS, STATUS_ACKNOWLEDGE, STATUS_DRIVER, STATUS_DRIVER_OK, STATUS_FAILED,
    STATUS_FEATURES_OK, TRANSPORT_SIZE, VIRTIO_MAGIC,
};
use vstd::prelude::*;

verus! {

/// The answers of a transport to a look for a device.
pub struct Answer {
    pub magic: u32,
    pub id: u32,
}

impl Answer {
    /// The reads that the look took.
    pub open spec fn reads(self, base: int) -> Seq<Access> {
        let first = seq![Access::Read(base + regs::MAGIC_VALUE, self.magic)];
        if self.magic == VIRTIO_MAGIC {
            first.push(Access::Read(base + regs::DEVICE_ID, self.id))
        } else {
            first
        }
    }

    /// The device that is there.
    pub open spec fn device(self) -> Option<u32> {
        if self.magic == VIRTIO_MAGIC && self.id != 0 {
            Some(self.id)
        } else {
            None
        }
    }
}

/// Looks for a device at a transport.
pub fn probe_transport<M: Mmio>(mmio: &mut M, base: usize) -> (r: Option<u32>)
    requires
        base <= usize::MAX - TRANSPORT_SIZE,
    ensures
        ({
            let n = old(mmio).trace().len() as int;
            let t = final(mmio).trace();
            let a = Answer { magic: mmio::value_of(t[n]), id: mmio::value_of(t.last()) };
            &&& t == old(mmio).trace() + a.reads(base as int)
            &&& r == a.device()
        }),
{
    let ghost t0 = mmio.trace();
    let magic: u32 = mmio.read32(base + regs::MAGIC_VALUE);
    if magic != VIRTIO_MAGIC {
        assert(mmio.trace() =~= t0 + (Answer { magic, id: magic }).reads(base as int));
        return None;
    }
    let id: u32 = mmio.read32(base + regs::DEVICE_ID);
    assert(mmio.trace() =~= t0 + (Answer { magic, id }).reads(base as int));
    if id == 0 {
        None
    } else {
        Some(id)
    }
}

/// Offset of transport `i`.
pub open spec fn transport_at(base: int, i: int) -> int {
    base + i * TRANSPORT_SIZE
}

/// The reads of looks at the transports from `from` on.
pub open spec fn look_reads(base: int, from: int, answers: Seq<Answer>) -> Seq<Access>
    decreases answers.len(),
{
    if answers.len() == 0 {
        Seq::empty()
    } else {
        look_reads(base, from, answers.drop_last()) + answers.last().reads(
            transport_at(base, from + answers.len() - 1),
        )
    }
}

/// From `t0` to `t1` the transports from `from` on were looked at until one held
/// device `wanted`: `r`.
pub open spec fn searched(
    t0: Seq<Access>,
    t1: Seq<Access>,
    base: int,
    from: int,
    wanted: u32,
    r: Option<usize>,
) -> bool {
    exists|answers: Seq<Answer>| #[trigger] searched_with(t0, t1, base, from, wanted, r, answers)
}

/// The same, with the answers.
pub open spec fn searched_with(
    t0: Seq<Access>,
    t1: Seq<Access>,
    base: int,
    from: int,
    wanted: u32,
    r: Option<usize>,
    answers: Seq<Answer>,
) -> bool {
    &&& t1 == t0 + look_reads(base, from, answers)
    &&& forall|j: int|
        0 <= j < answers.len() - 1 ==> (#[trigger] answers[j]).device() != Some(wanted)
    &&& match r {
        Some(i) => i < NUM_TRANSPORTS && answers.len() == i - from + 1 && i >= from
            && answers.last().device() == Some(wanted),
        None => from + answers.len() == NUM_TRANSPORTS && (answers.len() > 0
            ==> answers.last().device() != Some(wanted)),
    }
}

/// The first transport from `from` on that holds a device with identifier
/// `wanted`.
pub fn next_transport<M: Mmio>(mmio: &mut M, base: usize, from: usize, wanted: u32) -> (r: Option<
    usize,
>)
    requires
        base <= usize::MAX - 0x8000,
        from <= NUM_TRANSPORTS,
    ensures
        searched(
            old(mmio).trace(),
            final(mmio).trace(),
            base as int,
            from as int,
            wanted,
            r,
        ),
{
    let ghost t0 = mmio.trace();
    let ghost mut answers: Seq<Answer> = Seq::empty();
    let mut i: usize = from;
    assert(t0 =~= t0 + look_reads(base as int, from as int, answers));
    while i < NUM_TRANSPORTS
        invariant
            from <= i <= NUM_TRANSPORTS,
            base <= usize::MAX - 0x8000,
            t0 == old(mmio).trace(),
            answers.len() == i - from,
            mmio.trace() == t0 + look_reads(base as int, from as int, answers),
            forall|j: int|
                0 <= j < answers.len() ==> (#[trigger] answers[j]).device() != Some(wanted),
        decreases NUM_TRANSPORTS - i,
    {
        let ghost before = mmio.trace();
        let found: Option<u32> = probe_transport(mmio, base + i * TRANSPORT_SIZE);
        proof {
            let t = mmio.trace();
            let a = Answer {
                magic: mmio::value_of(t[before.len() as int]),
                id: mmio::value_of(t.last()),
            };
            let old_answers = answers;
            answers = answers.push(a);
            assert(answers.drop_last() =~= old_answers);
            assert(t =~= t0 + look_reads(base as int, from as int, answers));
        }
        if found == Some(wanted) {
            assert(searched_with(
                t0,
                mmio.trace(),
                base as int,
                from as int,
                wanted,
                Some(i),
                answers,
            ));
            return Some(i);
        }
        i = i + 1;
    }
    assert(searched_with(t0, mmio.trace(), base as int, from as int, wanted, None, answers));
    None
}

/// Resets a device.
pub fn reset_device<M: Mmio>(mmio: &mut M, base: usize)
    requires
        base <= usize::MAX - TRANSPORT_SIZE,
    ensures
        final(mmio).trace() == old(mmio).trace().push(Access::Write(base + regs::STATUS, 0)),
{
    mmio.write32(base + regs::STATUS, 0);
}

/// The accesses of a device setup in which the device offered `host` and the
/// status read back as `readback`: reset, acknowledge, driver, features, page
/// size, features accepted.
pub open spec fn setup_accesses(base: int, desired: u32, host: u32, readback: u32) -> Seq<Access> {
    let s = base + regs::STATUS;
    let all = seq![
        Access::Write(s, 0),
        Access::Write(s, STATUS_ACKNOWLEDGE),
        Access::Write(s, (STATUS_ACKNOWLEDGE + STATUS_DRIVER) as u32),
        Access::Write(base + regs::HOST_FEATURES_SEL, 0),
        Access::Read(base + regs::HOST_FEATURES, host),
        Access::Write(base + regs::GUEST_FEATURES_SEL, 0),
        Access::Write(base + regs::GUEST_FEATURES, host & desired),
        Access::Write(base + regs::GUEST_PAGE_SIZE, PAGE_SIZE as u32),
        Access::Write(s, (STATUS_ACKNOWLEDGE + STATUS_DRIVER + STATUS_FEATURES_OK) as u32),
        Access::Read(s, readback),
    ];
    if readback & STATUS_FEATURES_OK == 0 {
        all.push(Access::Write(s, STATUS_FAILED))
    } else {
        all
    }
}

/// The features that were agreed on.
pub open spec fn agreed(desired: u32, host: u32, readback: u32) -> Option<u32> {
    if readback & STATUS_FEATURES_OK == 0 {
        None
    } else {
        Some(host & desired)
    }
}

/// Sets a device up; the features agreed on, unless the device refused them.
pub fn init_device<M: Mmio>(mmio: &mut M, base: usize, desired_features: u32) -> (r: Option<u32>)
    requires
        base <= usize::MAX - TRANSPORT_SIZE,
    ensures
        ({
            let n = old(mmio).trace().len() as int;
            let t = final(mmio).trace();
            let host = mmio::value_of(t[n + 4]);
            let readback = mmio::value_of(t[n + 9]);
            &&& t == old(mmio).trace() + setup_accesses(
                base as int,
                desired_features,
                host,
                readback,
            )
            &&& r == agreed(desired_features, host, readback)
        }),
{
    let ghost t0 = mmio.trace();
    mmio.write32(base + regs::STATUS, 0);
    mmio.write32(base + regs::STATUS, STATUS_ACKNOWLEDGE);
    mmio.write32(base + regs::STATUS, STATUS_ACKNOWLEDGE + STATUS_DRIVER);
    mmio.write32(base + regs::HOST_FEATURES_SEL, 0);
    let host: u32 = mmio.read32(base + regs::HOST_FEATURES);
    let negotiated: u32 = host & desired_features;
    mmio.write32(base + regs::GUEST_FEATURES_SEL, 0);
    mmio.write32(base + regs::GUEST_FEATURES, negotiated);
    mmio.write32(base + regs::GUEST_PAGE_SIZE, PAGE_SIZE as u32);
    mmio.write32(base + regs::STATUS, STATUS_ACKNOWLEDGE + STATUS_DRIVER + STATUS_FEATURES_OK);
    let readback: u32 = mmio.read32(base + regs::STATUS);
    if readback & STATUS_FEATURES_OK == 0 {
        mmio.write32(base + regs::STATUS, STATUS_FAILED);
        assert(mmio.trace() =~= t0 + setup_accesses(
            base as int,
            desired_features,
            host,
            readback,
        ));
        return None;
    }
    assert(mmio.trace() =~= t0 + setup_accesses(base as int, desired_features, host, readback));
    Some(negotiated)
}

/// The accesses that mark a device ready whose status read as `status`.
pub open spec fn ready_accesses(base: int, status: u32) -> Seq<Access> {
    seq![
        Access::Read(base + regs::STATUS, status),
        Access::Write(base + regs::STATUS, status | STATUS_DRIVER_OK),
    ]
}

/// Marks a device ready.
pub fn driver_ok<M: Mmio>(mmio: &mut M, base: usize)
    requires
        base <= usize::MAX - TRANSPORT_SIZE,
    ensures
        ({
            let n = old(mmio).trace().len() as int;
            let t = final(mmio).trace();
            t == old(mmio).trace() + ready_accesses(base as int, mmio::value_of(t[n]))
        }),
{
    let ghost t0 = mmio.trace();
    let status: u32 = mmio.read32(base + regs::STATUS);
    mmio.write32(base + regs::STATUS, status | STATUS_DRIVER_OK);
    assert(mmio.trace() =~= t0 + ready_accesses(base as int, status));
}

/// The accesses that tell a device of a queue of `num` descriptors at `phys`,
/// where the device takes queues of up to `max`.
pub open spec fn queue_accesses(base: int, idx: u32, num: u16, phys: u64, page: u32, max: u32) -> Seq<
    Access,
> {
    let first = seq![
        Access::Write(base + regs::QUEUE_SEL, idx),
        Access::Read(base + regs::QUEUE_NUM_MAX, max),
    ];
    if max == 0 {
        first
    } else {
        first + seq![
            Access::Write(
                base + regs::QUEUE_NUM,
                if max < num {
                    max
                } else {
                    num as u32
                },
            ),
            Access::Write(base + regs::QUEUE_ALIGN, page),
            Access::Write(base + regs::QUEUE_PFN, (phys / page as u64) as u32),
        ]
    }
}

/// Tells a device of a queue, unless the device has none of that number.
pub fn setup_queue<M: Mmio>(
    mmio: &mut M,
    base: usize,
    queue_idx: u32,
    queue: &Virtqueue,
    guest_page_size: u32,
)
    requires
        base <= usize::MAX - TRANSPORT_SIZE,
        guest_page_size > 0,
    ensures
        ({
            let n = old(mmio).trace().len() as int;
            let t = final(mmio).trace();
            t == old(mmio).trace() + queue_accesses(
                base as int,
                queue_idx,
                queue.num,
                queue.phys_base,
                guest_page_size,
                mmio::value_of(t[n + 1]),
            )
        }),
{
    let ghost t0 = mmio.trace();
    mmio.write32(base + regs::QUEUE_SEL, queue_idx);
    let max: u32 = mmio.read32(base + regs::QUEUE_NUM_MAX);
    if max == 0 {
        assert(mmio.trace() =~= t0 + queue_accesses(
            base as int,
            queue_idx,
            queue.num,
            queue.phys_base,
            guest_page_size,
            max,
        ));
        return;
    }
    let num: u32 = if max < queue.num as u32 {
        max
    } else {
        queue.num as u32
    };
    mmio.write32(base + regs::QUEUE_NUM, num);
    mmio.write32(base + regs::QUEUE_ALIGN, guest_page_size);
    let pfn: u32 = (queue.phys_base / guest_page_size as u64) as u32;
    mmio.write32(base + regs::QUEUE_PFN, pfn);
    assert(mmio.trace() =~= t0 + queue_accesses(
        base as int,
        queue_idx,
        queue.num,
        queue.phys_base,
        guest_page_size,
        max,
    ));
}

/// Tells a device that a queue has new buffers.
pub fn notify<M: Mmio>(mmio: &mut M, base: usize, queue_idx: u32)
    requires
        base <= usize::MAX - TRANSPORT_SIZE,
    ensures
        final(mmio).trace() == old(mmio).trace().push(
            Access::Write(base + regs::QUEUE_NOTIFY, queue_idx),
        ),
{
    mmio.write32(base + regs::QUEUE_NOTIFY, queue_idx);
}

/// The accesses that read and acknowledge the interrupt status `status`.
pub open spec fn ack_accesses(base: int, status: u32) -> Seq<Access> {
    let first = seq![Access::Read(base + regs::INTERRUPT_STATUS, status)];
    if status == 0 {
        first
    } else {
        first.push(Access::Write(base + regs::INTERRUPT_ACK, status))
    }
}

/// Reads and acknowledges the interrupt status.
pub fn ack_interrupt<M: Mmio>(mmio: &mut M, base: usize) -> (status: u32)
    requires
        base <= usize::MAX - TRANSPORT_SIZE,
    ensures
        final(mmio).trace() == old(mmio).trace() + ack_accesses(base as int, status),
{
    let ghost t0 = mmio.trace();
    let status: u32 = mmio.read32(base + regs::INTERRUPT_STATUS);
    if status != 0 {
        mmio.write32(base + regs::INTERRUPT_ACK, status);
    }
    assert(mmio.trace() =~= t0 + ack_accesses(base as int, status));
    status
}

/// Reads a word of the device's own registers.
pub fn read_config_u32<M: Mmio>(mmio: &mut M, base: usize, offset: usize) -> (r: u32)
    requires
        base + regs::CONFIG + offset <= usize::MAX,
    ensures
        final(mmio).trace() == old(mmio).trace().push(
            Access::Read(base + regs::CONFIG + offset, r),
        ),
{
    mmio.read32(base + regs::CONFIG + offset)
}

/// Reads two words of the device's own registers, the low one first.
pub fn read_config_u64<M: Mmio>(mmio: &mut M, base: usize, offset: usize) -> (r: u64)
    requires
        base + regs::CONFIG + offset + 4 <= usize::MAX,
    ensures
        final(mmio).trace() == old(mmio).trace().push(
            Access::Read(base + regs::CONFIG + offset, (r % 0x1_0000_0000) as u32),
        ).push(Access::Read(base + regs::CONFIG + offset + 4, (r / 0x1_0000_0000) as u32)),
{
    let lo: u32 = mmio.read32(base + regs::CONFIG + offset);
    let hi: u32 = mmio.read32(base + regs::CONFIG + offset + 4);
    lo as u64 + hi as u64 * 0x1_0000_0000
}

/// A search that found nothing has looked at every transport; one that found a
/// device found the first.
pub proof fn law_search_is_complete(
    t0: Seq<Access>,
    t1: Seq<Access>,
    base: int,
    from: int,
    wanted: u32,
    r: Option<usize>,
    answers: Seq<Answer>,
    i: int,
)
    requires
        searched_with(t0, t1, base, from, wanted, r, answers),
        0 <= from <= i < NUM_TRANSPORTS,
        r is Some ==> i < r->0,
    ensures
        answers[i - from].device() != Some(wanted),
{
    assert(answers[i - from].device() != Some(wanted));
}

/// A device setup, as the device sees it: its status goes from 0 by 1 and 3 to 11; between 3
/// and 11 the first word of its features is read and those that both sides know are written
/// back, and pages of 16384 bytes are announced. The setup has succeeded where bit 3 of the
/// status reads as set; else the status becomes 128.
pub proof fn law_device_is_set_up(base: int, desired: u32, host: u32, readback: u32)
    ensures
        ({
            let t = setup_accesses(base, desired, host, readback);
            let common = host & desired;
            &&& t.take(10) == seq![
                Access::Write(base + 0x70, 0),
                Access::Write(base + 0x70, 1),
                Access::Write(base + 0x70, 3),
                Access::Write(base + 0x14, 0),
                Access::Read(base + 0x10, host),
                Access::Write(base + 0x24, 0),
                Access::Write(base + 0x20, common),
                Access::Write(base + 0x28, 16384),
                Access::Write(base + 0x70, 11),
                Access::Read(base + 0x70, readback),
            ]
            &&& common & !host == 0 && common & !desired == 0
            &&& readback / 8 % 2 == 1 ==> t.len() == 10 && agreed(desired, host, readback) == Some(
                common,
            )
            &&& readback / 8 % 2 == 0 ==> t.len() == 11 && t[10] == Access::Write(base + 0x70, 128)
                && agreed(desired, host, readback) is None
        }),
{
    assert((host & desired) & !host == 0 && (host & desired) & !desired == 0) by (bit_vector);
    assert((readback & 8u32 == 0) == (readback / 8u32 % 2 == 0)) by (bit_vector);
    let t = setup_accesses(base, desired, host, readback);
    assert(t.take(10) =~= seq![
        Access::Write(base + 0x70, 0),
        Access::Write(base + 0x70, 1),
        Access::Write(base + 0x70, 3),
        Access::Write(base + 0x14, 0),
        Access::Read(base + 0x10, host),
        Access::Write(base + 0x24, 0),
        Access::Write(base + 0x20, host & desired),
        Access::Write(base + 0x28, 16384),
        Access::Write(base + 0x70, 11),
        Access::Read(base + 0x70, readback),
    ]);
}

/// A queue, as the device sees it: it is selected first; the device learns no more descriptors
/// than it takes and no more than the queue has, and where pages are aligned the number of the
/// first one leads to the queue's address.
pub proof fn law_queue_is_announced(base: int, idx: u32, num: u16, phys: u64, page: u32, max: u32)
    requires
        page > 0,
        phys % page as u64 == 0,
        phys / (page as u64) < 0x1_0000_0000,
    ensures
        ({
            let t = queue_accesses(base, idx, num, phys, page, max);
            &&& t[0] == Access::Write(base + 0x30, idx)
            &&& t[1] == Access::Read(base + 0x34, max)
            &&& max == 0 ==> t.len() == 2
            &&& max > 0 ==> {
                &&& t.len() == 5
                &&& t[2] matches Access::Write(at, n) && at == base + 0x38 && n <= max && n <= num
                    && (n == max || n == num)
                &&& t[3] == Access::Write(base + 0x3C, page)
                &&& t[4] matches Access::Write(at, pfn) && at == base + 0x40 && pfn * page == phys
            }
        }),
{
    vstd::arithmetic::div_mod::lemma_fundamental_div_mod(phys as int, page as int);
    let q = phys as int / page as int;
    assert(page as int * q == q * page as int) by (nonlinear_arith);
}

/// An interrupt is acknowledged with the causes that were read, and only where there are some;
/// marking a device ready sets bit 2 of its status and keeps the others.
pub proof fn law_status_words(base: int, status: u32)
    ensures
        ack_accesses(base, status)[0] == Access::Read(base + 0x60, status),
        status == 0 ==> ack_accesses(base, status).len() == 1,
        status != 0 ==> ack_accesses(base, status).len() == 2 && ack_accesses(base, status)[1]
            == Access::Write(base + 0x64, status),
        ready_accesses(base, status).len() == 2,
        ready_accesses(base, status)[0] == Access::Read(base + 0x70, status),
        ready_accesses(base, status)[1] matches Access::Write(at, v) && at == base + 0x70 && v
            == status + (if status / 4 % 2 == 1 {
            0int
        } else {
            4
        }),
{
    assert((status | 4u32) == status + (if status / 4u32 % 2 == 1 {
        0u32
    } else {
        4u32
    })) by (bit_vector);
}

} // verus!
