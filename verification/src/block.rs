//! Block devices: what every storage backend offers, and the backends.
use vstd::prelude::*;

mod mem_device;
pub mod nvme_device;
pub mod sd_device;

pub use mem_device::MemBlockDevice;
pub use nvme_device::NvmeBlockDevice;
pub use sd_device::SdBlockDevice;

verus! {

/// Why a block transfer failed.
#[derive(Clone, Copy, Debug, PartialEq, Eq, Structural)]
pub enum BlockError {
    /// The blocks would extend past the end of the device.
    OutOfRange,
    /// The buffer is not a whole number of blocks.
    BadBuffer,
    /// The hardware did not answer in time.
    Timeout,
    /// The hardware reported an error.
    Io,
    /// A condition that is not handled.
    Other,
}

/// Why a transfer of `len` bytes from block `lba` on is refused, by a device of
/// `blocks` blocks of `size` bytes.
pub open spec fn refused(len: nat, lba: u64, size: u32, blocks: u64) -> Option<BlockError> {
    if len % size as nat != 0 {
        Some(BlockError::BadBuffer)
    } else if lba + len / size as nat > blocks {
        Some(BlockError::OutOfRange)
    } else {
        None
    }
}

/// Blocks `at` to `at + n` of a buffer, with `size` bytes in a block.
pub open spec fn block_span(buf: Seq<u8>, size: int, at: int, n: int) -> Seq<u8> {
    buf.subrange(at * size, (at + n) * size)
}

/// `buf` with the bytes from `off` on replaced by `src`.
pub open spec fn spliced(buf: Seq<u8>, off: int, src: Seq<u8>) -> Seq<u8> {
    buf.take(off) + src + buf.skip(off + src.len())
}

/// A storage backend.
pub trait BlockDevice: Sized {
    /// The device has a geometry to report.
    spec fn sized(&self) -> bool;

    /// The device can transfer blocks.
    spec fn ready(&self) -> bool;

    /// The device takes a request for `len` bytes from block `lba` on, be it to
    /// refuse it.
    spec fn takes(&self, len: usize, lba: u64) -> bool;

    /// Bytes in a block.
    spec fn bytes_per_block(&self) -> u32;

    /// Blocks on the device.
    spec fn block_count(&self) -> u64;

    /// Bytes in a block.
    fn block_size(&self) -> (r: u32)
        requires
            self.sized(),
        ensures
            r == self.bytes_per_block(),
    ;

    /// Blocks on the device.
    fn capacity_blocks(&self) -> (r: u64)
        requires
            self.sized(),
        ensures
            r == self.block_count(),
    ;

    /// Bytes on the device.
    fn capacity_bytes(&self) -> (r: u64)
        requires
            self.sized(),
            self.bytes_per_block() * self.block_count() <= u64::MAX,
        ensures
            r == self.bytes_per_block() * self.block_count(),
    {
        self.block_size() as u64 * self.capacity_blocks()
    }

    /// Fills `buf`, a whole number of blocks, from block `lba` on.
    fn read_blocks(&mut self, lba: u64, buf: &mut [u8]) -> (r: Result<(), BlockError>)
        requires
            old(self).ready(),
            old(self).takes(old(buf)@.len() as usize, lba),
        ensures
            final(self).ready(),
            final(self).bytes_per_block() == old(self).bytes_per_block(),
            final(self).block_count() == old(self).block_count(),
            final(buf)@.len() == old(buf)@.len(),
            refused(
                old(buf)@.len(),
                lba,
                old(self).bytes_per_block(),
                old(self).block_count(),
            ) matches Some(e) ==> r == Err::<(), BlockError>(e) && final(buf)@ == old(buf)@
                && *final(self) == *old(self),
    ;

    /// Writes `buf`, a whole number of blocks, from block `lba` on.
    fn write_blocks(&mut self, lba: u64, buf: &[u8]) -> (r: Result<(), BlockError>)
        requires
            old(self).ready(),
            old(self).takes(buf@.len() as usize, lba),
        ensures
            final(self).ready(),
            final(self).bytes_per_block() == old(self).bytes_per_block(),
            final(self).block_count() == old(self).block_count(),
            refused(
                buf@.len(),
                lba,
                old(self).bytes_per_block(),
                old(self).block_count(),
            ) matches Some(e) ==> r == Err::<(), BlockError>(e) && *final(self) == *old(self),
    ;
}

/// Copies `src` over the bytes of `buf` from `off` on.
pub(crate) fn copy_in(buf: &mut [u8], off: usize, src: &[u8])
    requires
        off + src@.len() <= old(buf)@.len(),
    ensures
        final(buf)@ == spliced(old(buf)@, off as int, src@),
{
    let mut i: usize = 0;
    while i < src.len()
        invariant
            i <= src@.len(),
            off + src@.len() <= buf@.len(),
            buf@.len() == old(buf)@.len(),
            forall|j: int|
                0 <= j < buf@.len() ==> #[trigger] buf@[j] == (if off <= j < off + i {
                    src@[j - off]
                } else {
                    old(buf)@[j]
                }),
        decreases src@.len() - i,
    {
        assert(buf.len() == buf@.len());
        buf[off + i] = src[i];
        i = i + 1;
    }
    assert(buf@ =~= spliced(old(buf)@, off as int, src@));
}

/// The check that every device makes first; where it passes, the number of blocks
/// to transfer.
pub fn span_of(len: usize, lba: u64, size: u32, blocks: u64) -> (r: Result<u64, BlockError>)
    requires
        size > 0,
    ensures
        match r {
            Ok(n) => refused(len as nat, lba, size, blocks) is None && n == len as nat
                / size as nat && lba + n <= blocks && n * size == len,
            Err(e) => refused(len as nat, lba, size, blocks) == Some(e),
        },
{
    if len as u64 % size as u64 != 0 {
        return Err(BlockError::BadBuffer);
    }
    let n: u64 = len as u64 / size as u64;
    if lba > blocks || n > blocks - lba {
        return Err(BlockError::OutOfRange);
    }
    proof {
        vstd::arithmetic::div_mod::lemma_fundamental_div_mod(len as int, size as int);
        assert(n * size == size * n) by (nonlinear_arith);
    }
    Ok(n)
}

/// Reading what was just written gives it back.
pub proof fn law_read_gives_back_write(data: Seq<u8>, off: int, bytes: Seq<u8>)
    requires
        0 <= off,
        off + bytes.len() <= data.len(),
    ensures
        spliced(data, off, bytes).subrange(off, off + bytes.len()) == bytes,
        spliced(data, off, bytes).len() == data.len(),
{
    assert(spliced(data, off, bytes).subrange(off, off + bytes.len()) =~= bytes);
}

/// A write leaves the bytes outside of it as they were.
pub proof fn law_write_stays_inside(data: Seq<u8>, off: int, bytes: Seq<u8>, at: int, len: int)
    requires
        0 <= off,
        off + bytes.len() <= data.len(),
        0 <= at,
        0 <= len,
        at + len <= data.len(),
        at + len <= off || off + bytes.len() <= at,
    ensures
        spliced(data, off, bytes).subrange(at, at + len) == data.subrange(at, at + len),
{
    assert(spliced(data, off, bytes).subrange(at, at + len) =~= data.subrange(at, at + len));
}

} // verus!
