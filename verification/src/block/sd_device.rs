//! A block device on an SD card.
use crate::block;
use crate::block::{BlockDevice, BlockError};
use crate::mmio::{Access, Mmio};
use crate::sdhci;
use crate::sdhci::card;
use crate::sdhci::card::Card;
use crate::sdhci::{CardInfo, Host, HostError};
use vstd::prelude::*;

verus! {

/// A card behind a host controller. Blocks go over one at a time.
pub struct SdBlockDevice<M: Mmio> {
    pub host: Host<M>,
    pub block_size: u32,
    pub capacity: u64,
}

/// What a controller error means to a user of the device.
pub open spec fn mapped(e: HostError) -> BlockError {
    match e {
        HostError::Timeout => BlockError::Timeout,
        HostError::CommandTimeout => BlockError::Timeout,
        HostError::DataTimeout => BlockError::Timeout,
        HostError::BadResponse => BlockError::Other,
        _ => BlockError::Io,
    }
}

/// Maps a controller error.
fn map_sdhci_err(e: HostError) -> (r: BlockError)
    ensures
        r == mapped(e),
{
    match e {
        HostError::Timeout | HostError::CommandTimeout | HostError::DataTimeout =>
            BlockError::Timeout,
        HostError::CommandCrc
        | HostError::CommandIndex
        | HostError::CommandEndBit
        | HostError::DataCrc
        | HostError::DataEndBit => BlockError::Io,
        HostError::BadResponse => BlockError::Other,
    }
}

/// Why a transfer is refused: besides the reasons that hold for every device, the
/// card takes block numbers of 32 bits.
pub open spec fn sd_refused(len: nat, lba: u64, size: u32, blocks: u64) -> Option<BlockError> {
    match block::refused(len, lba, size, blocks) {
        Some(e) => Some(e),
        None => if lba + len / size as nat > u32::MAX {
            Some(BlockError::OutOfRange)
        } else {
            None
        },
    }
}

/// Block `j` of a buffer.
pub open spec fn block_in(buf: Seq<u8>, j: int) -> Seq<u8> {
    buf.subrange(j * sdhci::BLOCK_SIZE, (j + 1) * sdhci::BLOCK_SIZE)
}

/// The transfers of single blocks: `ts` are the access traces around them and
/// `rs` their results. All but the last succeeded.
pub open spec fn chained(
    t0: Seq<Access>,
    t1: Seq<Access>,
    ts: Seq<Seq<Access>>,
    rs: Seq<Result<u32, HostError>>,
) -> bool {
    &&& ts.len() == rs.len() + 1
    &&& ts[0] == t0
    &&& ts.last() == t1
    &&& forall|j: int| 0 <= j < rs.len() - 1 ==> (#[trigger] rs[j]) is Ok
}

/// The result of a transfer of `n` blocks whose single results are `rs`.
pub open spec fn outcome(
    n: int,
    rs: Seq<Result<u32, HostError>>,
    r: Result<(), BlockError>,
) -> bool {
    match r {
        Ok(()) => rs.len() == n && (n > 0 ==> rs.last() is Ok),
        Err(e) => 0 < rs.len() <= n && rs.last() is Err && e == mapped(rs.last()->Err_0),
    }
}

/// From `t0` to `t1` the blocks from `lba` on were read into a buffer, which went
/// from `b0` to `b1`.
pub open spec fn blocks_read(
    t0: Seq<Access>,
    t1: Seq<Access>,
    budget: u32,
    lba: u64,
    b0: Seq<u8>,
    b1: Seq<u8>,
    r: Result<(), BlockError>,
) -> bool {
    exists|ts: Seq<Seq<Access>>, rs: Seq<Result<u32, HostError>>|
        #![trigger chained(t0, t1, ts, rs)]
        {
            &&& chained(t0, t1, ts, rs)
            &&& outcome(b0.len() as int / 512, rs, r)
            &&& read_each(budget, lba, b0, b1, ts, rs)
        }
}

/// Each single read, and the blocks that were not reached.
pub open spec fn read_each(
    budget: u32,
    lba: u64,
    b0: Seq<u8>,
    b1: Seq<u8>,
    ts: Seq<Seq<Access>>,
    rs: Seq<Result<u32, HostError>>,
) -> bool {
    &&& b1.len() == b0.len()
    &&& forall|j: int|
        #![trigger rs[j]]
        0 <= j < rs.len() ==> sdhci::block_read(
            ts[j],
            ts[j + 1],
            (lba + j) as u32,
            budget,
            rs[j],
            block_in(b0, j),
            block_in(b1, j),
        )
    &&& b1.skip(rs.len() as int * 512) == b0.skip(rs.len() as int * 512)
}

/// From `t0` to `t1` the blocks of `buf` were written from `lba` on.
pub open spec fn blocks_written(
    t0: Seq<Access>,
    t1: Seq<Access>,
    budget: u32,
    lba: u64,
    buf: Seq<u8>,
    r: Result<(), BlockError>,
) -> bool {
    exists|ts: Seq<Seq<Access>>, rs: Seq<Result<u32, HostError>>|
        #![trigger chained(t0, t1, ts, rs)]
        {
            &&& chained(t0, t1, ts, rs)
            &&& outcome(buf.len() as int / 512, rs, r)
            &&& write_each(budget, lba, buf, ts, rs)
        }
}

/// Each single write.
pub open spec fn write_each(
    budget: u32,
    lba: u64,
    buf: Seq<u8>,
    ts: Seq<Seq<Access>>,
    rs: Seq<Result<u32, HostError>>,
) -> bool {
    forall|j: int|
        #![trigger rs[j]]
        0 <= j < rs.len() ==> sdhci::block_written(
            ts[j],
            ts[j + 1],
            (lba + j) as u32,
            budget,
            rs[j],
            block_in(buf, j),
        )
}

impl<M: Mmio> SdBlockDevice<M> {
    /// A card that has been initialised and is selected.
    pub fn new(host: Host<M>, card: CardInfo) -> (r: SdBlockDevice<M>)
        ensures
            r == (SdBlockDevice {
                host,
                block_size: card.csd.block_len_bytes,
                capacity: card.blocks,
            }),
    {
        SdBlockDevice { host, block_size: card.csd.block_len_bytes, capacity: card.blocks }
    }

    /// The checks before a transfer; where they pass, the number of blocks.
    fn span(&self, len: usize, lba: u64) -> (r: Result<u64, BlockError>)
        requires
            self.block_size > 0,
            self.takes(len, lba),
        ensures
            match r {
                Ok(n) => sd_refused(len as nat, lba, self.block_size, self.capacity) is None && n
                    * 512 == len && lba + n <= u32::MAX,
                Err(e) => sd_refused(len as nat, lba, self.block_size, self.capacity) == Some(e),
            },
    {
        let n: u64 = match block::span_of(len, lba, self.block_size, self.capacity) {
            Ok(n) => n,
            Err(e) => {
                return Err(e);
            },
        };
        if lba + n > u32::MAX as u64 {
            return Err(BlockError::OutOfRange);
        }
        assert(n == 0 ==> len == 0);
        Ok(n)
    }
}

impl<M: Mmio> BlockDevice for SdBlockDevice<M> {
    open spec fn sized(&self) -> bool {
        true
    }

    open spec fn ready(&self) -> bool {
        self.block_size > 0
    }

    /// Where a block goes over, blocks have the size that the host controller moves.
    open spec fn takes(&self, len: usize, lba: u64) -> bool {
        len > 0 && sd_refused(len as nat, lba, self.block_size, self.capacity) is None
            ==> self.block_size == 512
    }

    open spec fn bytes_per_block(&self) -> u32 {
        self.block_size
    }

    open spec fn block_count(&self) -> u64 {
        self.capacity
    }

    fn block_size(&self) -> (r: u32) {
        self.block_size
    }

    fn capacity_blocks(&self) -> (r: u64) {
        self.capacity
    }

    fn read_blocks(&mut self, lba: u64, buf: &mut [u8]) -> (r: Result<(), BlockError>)
        ensures
            final(self).host.poll_budget == old(self).host.poll_budget,
            match sd_refused(old(buf)@.len(), lba, old(self).block_size, old(self).capacity) {
                Some(e) => r == Err::<(), BlockError>(e) && *final(self) == *old(self)
                    && final(buf)@ == old(buf)@,
                None => blocks_read(
                    old(self).host.mmio.trace(),
                    final(self).host.mmio.trace(),
                    old(self).host.poll_budget,
                    lba,
                    old(buf)@,
                    final(buf)@,
                    r,
                ),
            },
    {
        assert(buf.len() == buf@.len());
        let n: u64 = match self.span(buf.len(), lba) {
            Ok(n) => n,
            Err(e) => {
                return Err(e);
            },
        };
        let ghost b0 = buf@;
        let ghost t0 = self.host.mmio.trace();
        let ghost budget = self.host.poll_budget;
        let ghost mut ts: Seq<Seq<Access>> = seq![t0];
        let ghost mut rs: Seq<Result<u32, HostError>> = Seq::empty();
        let mut i: u64 = 0;
        while i < n
            invariant
                i <= n,
                n * 512 == buf@.len(),
                buf@.len() == b0.len(),
                b0 == old(buf)@,
                t0 == old(self).host.mmio.trace(),
                budget == old(self).host.poll_budget,
                self.host.poll_budget == budget,
                self.block_size > 0,
                self.block_size == old(self).block_size,
                self.capacity == old(self).capacity,
                sd_refused(b0.len(), lba, self.block_size, self.capacity) is None,
                lba + n <= u32::MAX,
                rs.len() == i,
                i > 0 ==> rs.last() is Ok,
                chained(t0, self.host.mmio.trace(), ts, rs),
                read_each(budget, lba, b0, buf@, ts, rs),
            decreases n - i,
        {
            assert(buf.len() == buf@.len());
            let off: usize = (i * 512) as usize;
            let mut data: Vec<u8> = vstd::slice::slice_to_vec(
                vstd::slice::slice_subrange(buf, off, off + 512),
            );
            let ghost before = buf@;
            let ghost old_ts = ts;
            let ghost old_rs = rs;
            assert(data@ =~= block_in(b0, i as int)) by {
                assert forall|k: int| 0 <= k < 512 implies data@[k] == block_in(b0, i as int)[k] by {
                    assert(before.skip(i * 512)[k] == b0.skip(i * 512)[k]);
                }
            }
            let one: Result<u32, HostError> = self.host.read_block(
                (lba + i) as u32,
                data.as_mut_slice(),
            );
            block::copy_in(buf, off, data.as_slice());
            proof {
                ts = ts.push(self.host.mmio.trace());
                rs = rs.push(one);
                assert(block_in(buf@, i as int) =~= data@);
                assert forall|j: int|
                    #![trigger rs[j]]
                    0 <= j < rs.len() implies sdhci::block_read(
                    ts[j],
                    ts[j + 1],
                    (lba + j) as u32,
                    budget,
                    rs[j],
                    block_in(b0, j),
                    block_in(buf@, j),
                ) by {
                    if j < i {
                        assert(rs[j] == old_rs[j]);
                        assert(block_in(buf@, j) =~= block_in(before, j));
                    }
                }
                assert(buf@.skip(rs.len() as int * 512) =~= b0.skip(rs.len() as int * 512)) by {
                    assert forall|k: int| rs.len() * 512 <= k < buf@.len() implies #[trigger] buf@[k]
                        == b0[k] by {
                        assert(before.skip(i * 512)[k - i * 512] == b0.skip(i * 512)[k - i * 512]);
                    }
                }
                assert(chained(t0, self.host.mmio.trace(), ts, rs));
            }
            match one {
                Ok(_) => {},
                Err(e) => {
                    return Err(map_sdhci_err(e));
                },
            }
            i = i + 1;
        }
        Ok(())
    }

    fn write_blocks(&mut self, lba: u64, buf: &[u8]) -> (r: Result<(), BlockError>)
        ensures
            final(self).host.poll_budget == old(self).host.poll_budget,
            match sd_refused(buf@.len(), lba, old(self).block_size, old(self).capacity) {
                Some(e) => r == Err::<(), BlockError>(e) && *final(self) == *old(self),
                None => blocks_written(
                    old(self).host.mmio.trace(),
                    final(self).host.mmio.trace(),
                    old(self).host.poll_budget,
                    lba,
                    buf@,
                    r,
                ),
            },
    {
        assert(buf.len() == buf@.len());
        let n: u64 = match self.span(buf.len(), lba) {
            Ok(n) => n,
            Err(e) => {
                return Err(e);
            },
        };
        let ghost t0 = self.host.mmio.trace();
        let ghost budget = self.host.poll_budget;
        let ghost mut ts: Seq<Seq<Access>> = seq![t0];
        let ghost mut rs: Seq<Result<u32, HostError>> = Seq::empty();
        let mut i: u64 = 0;
        while i < n
            invariant
                i <= n,
                n * 512 == buf@.len(),
                t0 == old(self).host.mmio.trace(),
                budget == old(self).host.poll_budget,
                self.host.poll_budget == budget,
                self.block_size > 0,
                self.block_size == old(self).block_size,
                self.capacity == old(self).capacity,
                sd_refused(buf@.len(), lba, self.block_size, self.capacity) is None,
                lba + n <= u32::MAX,
                rs.len() == i,
                i > 0 ==> rs.last() is Ok,
                chained(t0, self.host.mmio.trace(), ts, rs),
                write_each(budget, lba, buf@, ts, rs),
            decreases n - i,
        {
            assert(buf.len() == buf@.len());
            let off: usize = (i * 512) as usize;
            let data: &[u8] = vstd::slice::slice_subrange(buf, off, off + 512);
            let ghost old_rs = rs;
            let one: Result<u32, HostError> = self.host.write_block((lba + i) as u32, data);
            proof {
                ts = ts.push(self.host.mmio.trace());
                rs = rs.push(one);
                assert forall|j: int|
                    #![trigger rs[j]]
                    0 <= j < rs.len() implies sdhci::block_written(
                    ts[j],
                    ts[j + 1],
                    (lba + j) as u32,
                    budget,
                    rs[j],
                    block_in(buf@, j),
                ) by {
                    if j < i {
                        assert(rs[j] == old_rs[j]);
                    }
                }
                assert(chained(t0, self.host.mmio.trace(), ts, rs));
            }
            match one {
                Ok(_) => {},
                Err(e) => {
                    return Err(map_sdhci_err(e));
                },
            }
            i = i + 1;
        }
        Ok(())
    }
}

// ---------------------------------------------------------------------------
// What a user of the device finds on the card
// ---------------------------------------------------------------------------

/// While blocks are read one after the other, the card's blocks stay.
proof fn lemma_reads_keep(
    c: Card,
    budget: u32,
    lba: u64,
    b0: Seq<u8>,
    b1: Seq<u8>,
    ts: Seq<Seq<Access>>,
    rs: Seq<Result<u32, HostError>>,
    j: int,
)
    requires
        read_each(budget, lba, b0, b1, ts, rs),
        ts.len() == rs.len() + 1,
        card::faithful(c, ts[j]),
        card::whole(card::after(c, ts[0])),
        0 <= j <= rs.len(),
    ensures
        card::faithful(c, ts[0]),
        card::after(c, ts[j]).blocks == card::after(c, ts[0]).blocks,
    decreases j,
{
    if j > 0 {
        let i = j - 1;
        assert(rs[i] == rs[i]);
        card::lemma_stays_faithful(
            c,
            ts[i],
            ts[i + 1],
            (lba + i) as u32,
            budget,
            rs[i],
            block_in(b0, i),
            block_in(b1, i),
        );
        lemma_reads_keep(c, budget, lba, b0, b1, ts, rs, i);
        assert(card::whole(card::after(c, ts[i]))) by {
            assert(forall|n: u32|
                (#[trigger] card::after(c, ts[i]).blocks[n]) == card::after(c, ts[0]).blocks[n]);
        }
        card::law_block_is_read(
            c,
            ts[i],
            ts[i + 1],
            (lba + i) as u32,
            budget,
            rs[i],
            block_in(b0, i),
            block_in(b1, i),
        );
    }
}

/// What was true at the end of a row of reads was true before each of them.
proof fn lemma_reads_faithful(
    c: Card,
    budget: u32,
    lba: u64,
    b0: Seq<u8>,
    b1: Seq<u8>,
    ts: Seq<Seq<Access>>,
    rs: Seq<Result<u32, HostError>>,
    j: int,
)
    requires
        read_each(budget, lba, b0, b1, ts, rs),
        ts.len() == rs.len() + 1,
        card::faithful(c, ts.last()),
        0 <= j <= rs.len(),
    ensures
        card::faithful(c, ts[j]),
    decreases rs.len() - j,
{
    if j < rs.len() {
        lemma_reads_faithful(c, budget, lba, b0, b1, ts, rs, j + 1);
        assert(rs[j] == rs[j]);
        card::lemma_stays_faithful(
            c,
            ts[j],
            ts[j + 1],
            (lba + j) as u32,
            budget,
            rs[j],
            block_in(b0, j),
            block_in(b1, j),
        );
    }
}

/// A read that succeeds fills the buffer with the card's blocks from `lba` on, in their
/// order; no read changes the card.
pub proof fn law_blocks_are_read(
    c: Card,
    t0: Seq<Access>,
    t1: Seq<Access>,
    budget: u32,
    lba: u64,
    b0: Seq<u8>,
    b1: Seq<u8>,
    r: Result<(), BlockError>,
)
    requires
        blocks_read(t0, t1, budget, lba, b0, b1, r),
        card::faithful(c, t1),
        card::whole(card::after(c, t0)),
        b0.len() % 512 == 0,
        lba + b0.len() / 512 <= u32::MAX,
    ensures
        card::faithful(c, t0),
        card::after(c, t1).blocks == card::after(c, t0).blocks,
        b1.len() == b0.len(),
        r is Ok ==> forall|j: int|
            0 <= j < b0.len() as int / 512 ==> b1.subrange(512 * j, 512 * j + 512)
                == #[trigger] card::after(c, t0).blocks[(lba + j) as u32],
{
    let (ts, rs) = choose|ts: Seq<Seq<Access>>, rs: Seq<Result<u32, HostError>>|
        #![trigger chained(t0, t1, ts, rs)]
        {
            &&& chained(t0, t1, ts, rs)
            &&& outcome(b0.len() as int / 512, rs, r)
            &&& read_each(budget, lba, b0, b1, ts, rs)
        };
    lemma_reads_keep(c, budget, lba, b0, b1, ts, rs, rs.len() as int);
    if r is Ok {
        assert forall|j: int| 0 <= j < b0.len() as int / 512 implies b1.subrange(
            512 * j,
            512 * j + 512,
        ) == #[trigger] card::after(c, t0).blocks[(lba + j) as u32] by {
            lemma_reads_faithful(c, budget, lba, b0, b1, ts, rs, j);
            lemma_reads_faithful(c, budget, lba, b0, b1, ts, rs, j + 1);
            lemma_reads_keep(c, budget, lba, b0, b1, ts, rs, j);
            assert(rs[j] is Ok);
            card::law_block_is_read(
                c,
                ts[j],
                ts[j + 1],
                (lba + j) as u32,
                budget,
                rs[j],
                block_in(b0, j),
                block_in(b1, j),
            );
            assert(block_in(b1, j) == b1.subrange(512 * j, 512 * j + 512));
        }
    }
}

/// What a row of writes has done to the card after the first `j` of them.
proof fn lemma_writes(
    c: Card,
    budget: u32,
    lba: u64,
    buf: Seq<u8>,
    ts: Seq<Seq<Access>>,
    rs: Seq<Result<u32, HostError>>,
    j: int,
)
    requires
        write_each(budget, lba, buf, ts, rs),
        ts.len() == rs.len() + 1,
        512 * rs.len() <= buf.len(),
        lba + rs.len() <= u32::MAX,
        card::faithful(c, ts[j]),
        0 <= j <= rs.len(),
        forall|i: int| 0 <= i < j ==> (#[trigger] rs[i]) is Ok,
    ensures
        card::faithful(c, ts[0]),
        forall|n: u32|
            #[trigger]
            card::after(c, ts[j]).blocks[n] == (if lba <= n < lba + j {
                buf.subrange(512 * (n - lba), 512 * (n - lba) + 512)
            } else {
                card::after(c, ts[0]).blocks[n]
            }),
        card::whole(card::after(c, ts[0])) ==> card::whole(card::after(c, ts[j])),
    decreases j,
{
    if j > 0 {
        let i = j - 1;
        let b = block_in(buf, i);
        assert(rs[i] is Ok);
        assert(b == buf.subrange(512 * i, 512 * i + 512));
        card::law_block_is_written(c, ts[i], ts[i + 1], (lba + i) as u32, budget, rs[i], b);
        lemma_writes(c, budget, lba, buf, ts, rs, i);
        assert forall|n: u32|
            #[trigger] card::after(c, ts[j]).blocks[n] == (if lba <= n < lba + j {
                buf.subrange(512 * (n - lba), 512 * (n - lba) + 512)
            } else {
                card::after(c, ts[0]).blocks[n]
            }) by {
            assert(card::after(c, ts[i]).blocks[n] == card::after(c, ts[i]).blocks[n]);
        }
    }
}

/// A write that succeeds puts the blocks of the buffer, in their order, into the card's
/// blocks from `lba` on, and leaves every other block alone.
pub proof fn law_blocks_are_written(
    c: Card,
    t0: Seq<Access>,
    t1: Seq<Access>,
    budget: u32,
    lba: u64,
    buf: Seq<u8>,
)
    requires
        blocks_written(t0, t1, budget, lba, buf, Ok(())),
        card::faithful(c, t1),
        buf.len() % 512 == 0,
        lba + buf.len() / 512 <= u32::MAX,
    ensures
        card::faithful(c, t0),
        forall|n: u32|
            #[trigger]
            card::after(c, t1).blocks[n] == (if lba <= n < lba + buf.len() as int / 512 {
                buf.subrange(512 * (n - lba), 512 * (n - lba) + 512)
            } else {
                card::after(c, t0).blocks[n]
            }),
        card::whole(card::after(c, t0)) ==> card::whole(card::after(c, t1)),
{
    let r = Ok::<(), BlockError>(());
    let (ts, rs) = choose|ts: Seq<Seq<Access>>, rs: Seq<Result<u32, HostError>>|
        #![trigger chained(t0, t1, ts, rs)]
        {
            &&& chained(t0, t1, ts, rs)
            &&& outcome(buf.len() as int / 512, rs, r)
            &&& write_each(budget, lba, buf, ts, rs)
        };
    assert forall|i: int| 0 <= i < rs.len() implies (#[trigger] rs[i]) is Ok by {
        if i == rs.len() - 1 {
            assert(rs.last() == rs[i]);
        }
    }
    lemma_writes(c, budget, lba, buf, ts, rs, rs.len() as int);
}

/// What was written to the device is read back from it, with the same block number.
pub proof fn law_device_reads_back(
    c: Card,
    t0: Seq<Access>,
    t1: Seq<Access>,
    t2: Seq<Access>,
    budget: u32,
    lba: u64,
    buf: Seq<u8>,
    b0: Seq<u8>,
    b1: Seq<u8>,
)
    requires
        blocks_written(t0, t1, budget, lba, buf, Ok(())),
        blocks_read(t1, t2, budget, lba, b0, b1, Ok(())),
        card::faithful(c, t1),
        card::faithful(c, t2),
        card::whole(card::after(c, t0)),
        buf.len() % 512 == 0,
        b0.len() == buf.len(),
        lba + buf.len() / 512 <= u32::MAX,
    ensures
        b1 == buf,
{
    law_blocks_are_written(c, t0, t1, budget, lba, buf);
    law_blocks_are_read(c, t1, t2, budget, lba, b0, b1, Ok(()));
    assert forall|k: int| 0 <= k < buf.len() implies #[trigger] b1[k] == buf[k] by {
        let j = k / 512;
        let n = (lba + j) as u32;
        assert(b1.subrange(512 * j, 512 * j + 512) == card::after(c, t1).blocks[n]);
        assert(n - lba == j);
        assert(b1.subrange(512 * j, 512 * j + 512)[k - 512 * j] == b1[k]);
        assert(buf.subrange(512 * j, 512 * j + 512)[k - 512 * j] == buf[k]);
    }
    assert(b1 =~= buf);
}

} // verus!
