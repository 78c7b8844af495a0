//! A block device behind an NVMe transport.
use crate::block;
use crate::block::{BlockDevice, BlockError};
use crate::nvme;
use crate::nvme::{Cqe, Exchange, NamespaceInfo, Sqe, StatusField, Transport};
use vstd::prelude::*;

verus! {

/// One namespace of an NVMe controller.
pub struct NvmeBlockDevice<T: Transport> {
    pub transport: T,
    pub namespace_id: u32,
    pub block_size: u32,
    pub n_blocks: u64,
    /// Identifier of the latest command.
    pub next_cid: u16,
}

/// The most blocks that one command moves.
pub const MAX_BLOCKS_PER_COMMAND: u16 = 0xFFFF;

/// Why a command failed.
pub open spec fn failure(s: StatusField) -> BlockError {
    if s.sc == nvme::sc_generic::LBA_OUT_OF_RANGE {
        BlockError::OutOfRange
    } else {
        BlockError::Io
    }
}

/// The status in a reply.
pub open spec fn reply_status(c: Cqe) -> StatusField {
    nvme::status_of(c.cid_phase_status as int / 0x2_0000)
}

/// How many commands move `n` blocks.
pub open spec fn commands_for(n: int) -> int {
    (n + MAX_BLOCKS_PER_COMMAND - 1) / MAX_BLOCKS_PER_COMMAND as int
}

/// How many of `n` blocks command `j` moves.
pub open spec fn blocks_of(n: int, j: int) -> int {
    if n - j * MAX_BLOCKS_PER_COMMAND < MAX_BLOCKS_PER_COMMAND {
        n - j * MAX_BLOCKS_PER_COMMAND
    } else {
        MAX_BLOCKS_PER_COMMAND as int
    }
}

/// The part of the buffer that command `j` moves.
pub open spec fn part(buf: Seq<u8>, size: int, j: int) -> Seq<u8> {
    block::block_span(
        buf,
        size,
        j * MAX_BLOCKS_PER_COMMAND,
        blocks_of(buf.len() as int / size, j),
    )
}

/// The device before the transfer, and what the transfer asked for.
pub struct Request {
    pub opcode: u8,
    pub nsid: u32,
    pub size: u32,
    /// Identifier of the latest command before the transfer.
    pub cid: u16,
    pub lba: u64,
    pub buf: Seq<u8>,
}

impl Request {
    /// Command `j` of the transfer.
    pub open spec fn command(self, j: int) -> Sqe {
        nvme::transfer(
            self.opcode,
            ((self.cid + 1 + j) % 0x1_0000) as u16,
            self.nsid,
            (self.lba + j * MAX_BLOCKS_PER_COMMAND) as u64,
            blocks_of(self.buf.len() as int / self.size as int, j) as u16,
            0,
        )
    }

    /// The first `done` commands were exchanged, and all but the last succeeded.
    pub open spec fn ran(self, l0: Seq<Exchange>, l1: Seq<Exchange>, done: int) -> bool {
        &&& 0 <= done <= commands_for(self.buf.len() as int / self.size as int)
        &&& l1.len() == l0.len() + done
        &&& forall|i: int| 0 <= i < l0.len() ==> #[trigger] l1[i] == l0[i]
        &&& forall|j: int|
            #![trigger l1[l0.len() + j]]
            0 <= j < done ==> {
                let ex = l1[l0.len() + j];
                &&& ex.sqe == self.command(j)
                &&& ex.sent == part(self.buf, self.size as int, j)
                &&& j < done - 1 ==> reply_status(ex.reply).success()
            }
    }

    /// The transfer ended with result `r`: every command succeeded, or the last
    /// one sent failed.
    pub open spec fn ended(
        self,
        l0: Seq<Exchange>,
        l1: Seq<Exchange>,
        r: Result<(), BlockError>,
    ) -> bool {
        let done = l1.len() - l0.len();
        &&& self.ran(l0, l1, done)
        &&& match r {
            Ok(()) => done == commands_for(self.buf.len() as int / self.size as int) && (done > 0
                ==> reply_status(l1.last().reply).success()),
            Err(e) => done > 0 && !reply_status(l1.last().reply).success() && e == failure(
                reply_status(l1.last().reply),
            ),
        }
    }

    /// The buffer after `done` commands: each part holds what its command received.
    pub open spec fn received(
        self,
        l0: Seq<Exchange>,
        l1: Seq<Exchange>,
        done: int,
        buf: Seq<u8>,
    ) -> bool {
        let n = self.buf.len() as int / self.size as int;
        let reach = if done * MAX_BLOCKS_PER_COMMAND < n {
            done * MAX_BLOCKS_PER_COMMAND
        } else {
            n
        };
        &&& buf.len() == self.buf.len()
        &&& forall|j: int|
            #![trigger l1[l0.len() + j]]
            0 <= j < done ==> part(buf, self.size as int, j) == l1[l0.len() + j].received
        &&& buf.skip(reach * self.size) == self.buf.skip(reach * self.size)
    }
}

impl<T: Transport> NvmeBlockDevice<T> {
    /// The request for a transfer.
    pub open spec fn request(self, opcode: u8, lba: u64, buf: Seq<u8>) -> Request {
        Request {
            opcode,
            nsid: self.namespace_id,
            size: self.block_size,
            cid: self.next_cid,
            lba,
            buf,
        }
    }

    /// Asks the controller for namespace `nsid`, and wraps it.
    pub fn new(transport: T, nsid: u32) -> (r: Result<NvmeBlockDevice<T>, BlockError>)
        ensures
            match r {
                Ok(d) => {
                    let log = d.transport.log();
                    let ex = log.last();
                    &&& log == transport.log().push(ex)
                    &&& ex.sqe == (Sqe {
                        cdw0: nvme::packed_cdw0(nvme::admin_opc::IDENTIFY, 0, 0) as u32,
                        nsid,
                        cdw10: nvme::cns::IDENTIFY_NAMESPACE as u32,
                        ..Sqe::zero()
                    })
                    &&& ex.sent == Seq::new(4096, |i: int| 0u8)
                    &&& reply_status(ex.reply).success()
                    &&& d.namespace_id == nsid
                    &&& d.block_size == nvme::namespace_of(ex.received).block_size
                    &&& d.n_blocks == nvme::namespace_of(ex.received).size_lba
                    &&& d.next_cid == 1
                    &&& d.ready()
                },
                Err(e) => e == BlockError::Io,
            },
    {
        let mut transport: T = transport;
        let mut page: [u8; 4096] = [0u8; 4096];
        let sqe: Sqe = Sqe::identify(0, nvme::cns::IDENTIFY_NAMESPACE, nsid, 0);
        let ghost zeros = page@;
        assert(zeros =~= Seq::new(4096, |i: int| 0u8));
        let reply: Cqe = transport.submit(&sqe, &mut page);
        NvmeBlockDevice::identified(transport, nsid, &reply, &page)
    }

    /// Wraps namespace `nsid`, which the controller has described.
    pub fn identified(transport: T, nsid: u32, reply: &Cqe, page: &[u8]) -> (r: Result<
        NvmeBlockDevice<T>,
        BlockError,
    >)
        requires
            page@.len() >= 4096,
        ensures
            match r {
                Ok(d) => reply_status(*reply).success() && d == (NvmeBlockDevice {
                    transport,
                    namespace_id: nsid,
                    block_size: nvme::namespace_of(page@).block_size,
                    n_blocks: nvme::namespace_of(page@).size_lba,
                    next_cid: 1,
                }) && d.ready(),
                Err(e) => !reply_status(*reply).success() && e == BlockError::Io,
            },
    {
        if !reply.status().is_success() {
            return Err(BlockError::Io);
        }
        let ns: NamespaceInfo = NamespaceInfo::parse(page);
        Ok(
            NvmeBlockDevice {
                transport,
                namespace_id: nsid,
                block_size: ns.block_size,
                n_blocks: ns.size_lba,
                next_cid: 1,
            },
        )
    }
}

/// The bytes of command `j` lie between those of the commands around it.
proof fn lemma_part_bounds(n: int, size: int, i: int, j: int)
    requires
        0 <= i <= j,
        j * MAX_BLOCKS_PER_COMMAND < n,
        size > 0,
    ensures
        0 < blocks_of(n, j) <= MAX_BLOCKS_PER_COMMAND,
        0 <= i * MAX_BLOCKS_PER_COMMAND * size,
        j * MAX_BLOCKS_PER_COMMAND * size + blocks_of(n, j) * size == (j * MAX_BLOCKS_PER_COMMAND
            + blocks_of(n, j)) * size,
        (j * MAX_BLOCKS_PER_COMMAND + blocks_of(n, j)) * size <= n * size,
        blocks_of(n, j) * size <= n * size,
        i < j ==> (i * MAX_BLOCKS_PER_COMMAND + blocks_of(n, i)) * size <= j
            * MAX_BLOCKS_PER_COMMAND * size,
        i * MAX_BLOCKS_PER_COMMAND * size <= (i * MAX_BLOCKS_PER_COMMAND + blocks_of(n, i)) * size,
{
    let a = j * MAX_BLOCKS_PER_COMMAND;
    let b = blocks_of(n, j);
    let c = i * MAX_BLOCKS_PER_COMMAND;
    let d = blocks_of(n, i);
    assert(0 < b <= MAX_BLOCKS_PER_COMMAND && a + b <= n);
    assert(0 < d <= MAX_BLOCKS_PER_COMMAND && (i < j ==> c + d <= a));
    assert(0 <= c * size && a * size + b * size == (a + b) * size && (a + b) * size <= n * size && b
        * size <= n * size && c * size <= (c + d) * size) by (nonlinear_arith)
        requires
            0 <= c,
            0 <= a,
            0 < b,
            0 < d,
            a + b <= n,
            size > 0,
    ;
    if i < j {
        assert((c + d) * size <= a * size) by (nonlinear_arith)
            requires
                c + d <= a,
                size > 0,
        ;
    }
}

/// Filling in the part of command `j` changes no other.
proof fn lemma_fill_part(buf: Seq<u8>, n: int, size: int, j: int, src: Seq<u8>)
    requires
        0 <= j,
        j * MAX_BLOCKS_PER_COMMAND < n,
        size > 0,
        buf.len() == n * size,
        src.len() == blocks_of(n, j) * size,
    ensures
        ({
            let after = block::spliced(buf, j * MAX_BLOCKS_PER_COMMAND * size, src);
            let end = (j * MAX_BLOCKS_PER_COMMAND + blocks_of(n, j)) * size;
            &&& after.len() == buf.len()
            &&& part(after, size, j) == src
            &&& forall|i: int|
                0 <= i < j ==> #[trigger] part(after, size, i) == part(buf, size, i)
            &&& after.skip(end) == buf.skip(end)
        }),
{
    let after = block::spliced(buf, j * MAX_BLOCKS_PER_COMMAND * size, src);
    let end = (j * MAX_BLOCKS_PER_COMMAND + blocks_of(n, j)) * size;
    lemma_part_bounds(n, size, j, j);
    vstd::arithmetic::div_mod::lemma_div_multiples_vanish(n, size);
    assert(size * n == n * size) by (nonlinear_arith);
    assert(part(after, size, j) =~= src);
    assert forall|i: int| 0 <= i < j implies #[trigger] part(after, size, i) == part(
        buf,
        size,
        i,
    ) by {
        lemma_part_bounds(n, size, i, j);
        assert(part(after, size, i) =~= part(buf, size, i));
    }
    assert(after.skip(end) =~= buf.skip(end));
}

/// One more command was exchanged.
proof fn lemma_ran(q: Request, l0: Seq<Exchange>, log: Seq<Exchange>, now: Seq<Exchange>, j: int)
    requires
        q.ran(l0, log, j),
        j < commands_for(q.buf.len() as int / q.size as int),
        j > 0 ==> reply_status(log.last().reply).success(),
        now == log.push(now.last()),
        now.last().sqe == q.command(j),
        now.last().sent == part(q.buf, q.size as int, j),
    ensures
        q.ran(l0, now, j + 1),
{
    assert(now[l0.len() + j] == now.last());
    assert forall|i: int|
        #![trigger now[l0.len() + i]]
        0 <= i < j + 1 implies {
        let ex = now[l0.len() + i];
        &&& ex.sqe == q.command(i)
        &&& ex.sent == part(q.buf, q.size as int, i)
        &&& i < j ==> reply_status(ex.reply).success()
    } by {
        if i < j {
            assert(now[l0.len() + i] == log[l0.len() + i]);
        }
    }
}

/// What one more command received was filled in.
proof fn lemma_received(
    q: Request,
    l0: Seq<Exchange>,
    log: Seq<Exchange>,
    now: Seq<Exchange>,
    j: int,
    before: Seq<u8>,
    after: Seq<u8>,
)
    requires
        q.size > 0,
        0 <= j,
        log.len() == l0.len() + j,
        q.buf.len() == q.buf.len() as int / q.size as int * q.size,
        j * MAX_BLOCKS_PER_COMMAND < q.buf.len() as int / q.size as int,
        q.received(l0, log, j, before),
        now == log.push(now.last()),
        now.last().received.len() == blocks_of(q.buf.len() as int / q.size as int, j) * q.size,
        after == block::spliced(
            before,
            j * MAX_BLOCKS_PER_COMMAND * q.size,
            now.last().received,
        ),
    ensures
        q.received(l0, now, j + 1, after),
{
    let size = q.size as int;
    let n = q.buf.len() as int / size;
    let off = j * MAX_BLOCKS_PER_COMMAND * size;
    let end = (j * MAX_BLOCKS_PER_COMMAND + blocks_of(n, j)) * size;
    lemma_part_bounds(n, size, j, j);
    lemma_fill_part(before, n, size, j, now.last().received);
    assert(now[l0.len() + j] == now.last());
    assert forall|i: int|
        #![trigger now[l0.len() + i]]
        0 <= i < j + 1 implies part(after, size, i) == now[l0.len() + i].received by {
        if i < j {
            assert(now[l0.len() + i] == log[l0.len() + i]);
            assert(part(after, size, i) == part(before, size, i));
        }
    }
    assert(after.skip(end) =~= q.buf.skip(end)) by {
        assert forall|k: int| end <= k < after.len() implies #[trigger] after[k] == q.buf[k] by {
            assert(after.skip(end)[k - end] == before.skip(end)[k - end]);
            assert(before.skip(off)[k - off] == q.buf.skip(off)[k - off]);
        }
    }
}

impl<T: Transport> NvmeBlockDevice<T> {
    /// Runs one command.
    fn run(&mut self, write: bool, lba: u64, count: u16, data: &mut [u8]) -> (r: Result<
        (),
        BlockError,
    >)
        ensures
            final(self).namespace_id == old(self).namespace_id,
            final(self).block_size == old(self).block_size,
            final(self).n_blocks == old(self).n_blocks,
            final(self).next_cid == (old(self).next_cid + 1) % 0x1_0000,
            final(data)@.len() == old(data)@.len(),
            ({
                let log = final(self).transport.log();
                let ex = log.last();
                &&& log == old(self).transport.log().push(ex)
                &&& ex.sqe == nvme::transfer(
                    if write {
                        nvme::nvm_opc::WRITE
                    } else {
                        nvme::nvm_opc::READ
                    },
                    final(self).next_cid,
                    old(self).namespace_id,
                    lba,
                    count,
                    0,
                )
                &&& ex.sent == old(data)@
                &&& ex.received == final(data)@
                &&& match r {
                    Ok(()) => reply_status(ex.reply).success(),
                    Err(e) => !reply_status(ex.reply).success() && e == failure(
                        reply_status(ex.reply),
                    ),
                }
            }),
    {
        self.next_cid = self.next_cid.wrapping_add(1);
        let sqe: Sqe = if write {
            Sqe::write(self.next_cid, self.namespace_id, lba, count, 0)
        } else {
            Sqe::read(self.next_cid, self.namespace_id, lba, count, 0)
        };
        let reply: Cqe = self.transport.submit(&sqe, data);
        let s: StatusField = reply.status();
        if s.is_success() {
            Ok(())
        } else if s.sc == nvme::sc_generic::LBA_OUT_OF_RANGE {
            Err(BlockError::OutOfRange)
        } else {
            Err(BlockError::Io)
        }
    }
}

impl<T: Transport> BlockDevice for NvmeBlockDevice<T> {
    open spec fn sized(&self) -> bool {
        true
    }

    open spec fn ready(&self) -> bool {
        self.block_size > 0
    }

    open spec fn takes(&self, len: usize, lba: u64) -> bool {
        true
    }

    open spec fn bytes_per_block(&self) -> u32 {
        self.block_size
    }

    open spec fn block_count(&self) -> u64 {
        self.n_blocks
    }

    fn block_size(&self) -> (r: u32) {
        self.block_size
    }

    fn capacity_blocks(&self) -> (r: u64) {
        self.n_blocks
    }

    fn read_blocks(&mut self, lba: u64, buf: &mut [u8]) -> (r: Result<(), BlockError>)
        ensures
            final(self).namespace_id == old(self).namespace_id,
            block::refused(
                old(buf)@.len(),
                lba,
                old(self).block_size,
                old(self).n_blocks,
            ) is None ==> {
                let q = old(self).request(nvme::nvm_opc::READ, lba, old(buf)@);
                let l0 = old(self).transport.log();
                let l1 = final(self).transport.log();
                &&& q.ended(l0, l1, r)
                &&& q.received(l0, l1, l1.len() - l0.len(), final(buf)@)
                &&& final(self).next_cid == (old(self).next_cid + (l1.len() - l0.len()))
                    % 0x1_0000
            },
    {
        let n: u64 = match block::span_of(buf.len(), lba, self.block_size, self.n_blocks) {
            Ok(n) => n,
            Err(e) => {
                return Err(e);
            },
        };
        let ghost q = self.request(nvme::nvm_opc::READ, lba, buf@);
        let ghost l0 = self.transport.log();
        let ghost size = self.block_size as int;
        let ghost mut j: int = 0;
        let mut at: u64 = 0;
        while at < n
            invariant
                size == self.block_size,
                size > 0,
                self.namespace_id == old(self).namespace_id,
                self.block_size == old(self).block_size,
                self.n_blocks == old(self).n_blocks,
                q == old(self).request(nvme::nvm_opc::READ, lba, q.buf),
                q.buf == old(buf)@,
                l0 == old(self).transport.log(),
                n * size == q.buf.len(),
                n == q.buf.len() as int / size,
                block::refused(q.buf.len(), lba, self.block_size, self.n_blocks) is None,
                lba + n <= self.n_blocks,
                buf@.len() == q.buf.len(),
                at <= n,
                j >= 0,
                at < n ==> at == j * MAX_BLOCKS_PER_COMMAND,
                at == n ==> j == commands_for(n as int) && n <= j * MAX_BLOCKS_PER_COMMAND,
                q.ran(l0, self.transport.log(), j),
                j > 0 ==> reply_status(self.transport.log().last().reply).success(),
                q.received(l0, self.transport.log(), j, buf@),
                self.next_cid == (old(self).next_cid + j) % 0x1_0000,
            decreases n - at,
        {
            let left: u64 = n - at;
            let count: u16 = if left < MAX_BLOCKS_PER_COMMAND as u64 {
                left as u16
            } else {
                MAX_BLOCKS_PER_COMMAND
            };
            proof {
                lemma_part_bounds(n as int, size, j, j);
                assert(buf.len() == buf@.len());
            }
            let off: usize = (at * self.block_size as u64) as usize;
            let take: usize = (count as u64 * self.block_size as u64) as usize;
            let mut data: Vec<u8> = vstd::slice::slice_to_vec(
                vstd::slice::slice_subrange(buf, off, off + take),
            );
            let ghost before = buf@;
            let ghost log = self.transport.log();
            assert(data@ =~= part(q.buf, size, j)) by {
                assert forall|k: int| 0 <= k < take implies data@[k] == part(q.buf, size, j)[k] by {
                    assert(before.skip(off as int)[k] == q.buf.skip(off as int)[k]);
                }
            }
            let r: Result<(), BlockError> = self.run(false, lba + at, count, data.as_mut_slice());
            block::copy_in(buf, off, data.as_slice());
            proof {
                let now = self.transport.log();
                lemma_ran(q, l0, log, now, j);
                lemma_received(q, l0, log, now, j, before, buf@);
                j = j + 1;
            }
            match r {
                Ok(()) => {},
                Err(e) => {
                    return Err(e);
                },
            }
            at = at + count as u64;
        }
        Ok(())
    }

    fn write_blocks(&mut self, lba: u64, buf: &[u8]) -> (r: Result<(), BlockError>)
        ensures
            final(self).namespace_id == old(self).namespace_id,
            block::refused(buf@.len(), lba, old(self).block_size, old(self).n_blocks) is None ==> {
                let q = old(self).request(nvme::nvm_opc::WRITE, lba, buf@);
                let l0 = old(self).transport.log();
                let l1 = final(self).transport.log();
                &&& q.ended(l0, l1, r)
                &&& final(self).next_cid == (old(self).next_cid + (l1.len() - l0.len()))
                    % 0x1_0000
            },
    {
        let n: u64 = match block::span_of(buf.len(), lba, self.block_size, self.n_blocks) {
            Ok(n) => n,
            Err(e) => {
                return Err(e);
            },
        };
        let ghost q = self.request(nvme::nvm_opc::WRITE, lba, buf@);
        let ghost l0 = self.transport.log();
        let ghost size = self.block_size as int;
        let ghost mut j: int = 0;
        let mut at: u64 = 0;
        while at < n
            invariant
                size == self.block_size,
                size > 0,
                self.namespace_id == old(self).namespace_id,
                self.block_size == old(self).block_size,
                self.n_blocks == old(self).n_blocks,
                q == old(self).request(nvme::nvm_opc::WRITE, lba, buf@),
                l0 == old(self).transport.log(),
                n * size == buf@.len(),
                n == buf@.len() as int / size,
                block::refused(buf@.len(), lba, self.block_size, self.n_blocks) is None,
                lba + n <= self.n_blocks,
                at <= n,
                j >= 0,
                at < n ==> at == j * MAX_BLOCKS_PER_COMMAND,
                at == n ==> j == commands_for(n as int),
                q.ran(l0, self.transport.log(), j),
                j > 0 ==> reply_status(self.transport.log().last().reply).success(),
                self.next_cid == (old(self).next_cid + j) % 0x1_0000,
            decreases n - at,
        {
            let left: u64 = n - at;
            let count: u16 = if left < MAX_BLOCKS_PER_COMMAND as u64 {
                left as u16
            } else {
                MAX_BLOCKS_PER_COMMAND
            };
            proof {
                lemma_part_bounds(n as int, size, j, j);
                assert(buf.len() == buf@.len());
            }
            let off: usize = (at * self.block_size as u64) as usize;
            let take: usize = (count as u64 * self.block_size as u64) as usize;
            let mut data: Vec<u8> = vstd::slice::slice_to_vec(
                vstd::slice::slice_subrange(buf, off, off + take),
            );
            let ghost log = self.transport.log();
            assert(data@ =~= part(buf@, size, j));
            let r: Result<(), BlockError> = self.run(true, lba + at, count, data.as_mut_slice());
            proof {
                lemma_ran(q, l0, log, self.transport.log(), j);
                j = j + 1;
            }
            match r {
                Ok(()) => {},
                Err(e) => {
                    return Err(e);
                },
            }
            at = at + count as u64;
        }
        Ok(())
    }
}

} // verus!
