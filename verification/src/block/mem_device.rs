//! A block device in memory.
use crate::block;
use crate::block::{BlockDevice, BlockError};
use crate::bytes;
use vstd::prelude::*;

verus! {

/// A block device whose blocks are in memory.
pub struct MemBlockDevice {
    data: Vec<u8>,
    block_size: u32,
}

impl View for MemBlockDevice {
    type V = Seq<u8>;

    closed spec fn view(&self) -> Seq<u8> {
        self.data@
    }
}

impl MemBlockDevice {
    /// A device of zeros. Only one with blocks of at least a byte can be used.
    pub fn new(block_size: u32, n_blocks: u64) -> (r: MemBlockDevice)
        requires
            block_size * n_blocks <= usize::MAX,
        ensures
            r@ == Seq::new((block_size * n_blocks) as nat, |i: int| 0u8),
            r.bytes_per_block() == block_size,
            block_size > 0 ==> r.sized() && r.ready() && r.block_count() == n_blocks,
    {
        assert(block_size as u64 * n_blocks <= u64::MAX);
        let len: usize = (block_size as u64 * n_blocks) as usize;
        let mut data: Vec<u8> = Vec::new();
        bytes::push_zeros(&mut data, len);
        proof {
            assert(data@ =~= Seq::new((block_size * n_blocks) as nat, |i: int| 0u8));
            if block_size > 0 {
                vstd::arithmetic::div_mod::lemma_div_multiples_vanish(
                    n_blocks as int,
                    block_size as int,
                );
                vstd::arithmetic::div_mod::lemma_mod_multiples_basic(
                    n_blocks as int,
                    block_size as int,
                );
                assert(n_blocks * block_size == block_size * n_blocks) by (nonlinear_arith);
            }
        }
        MemBlockDevice { data, block_size }
    }

    /// The bytes of the device.
    pub fn as_bytes(&self) -> (r: &[u8])
        ensures
            r@ == self@,
    {
        self.data.as_slice()
    }

    /// A device holds its blocks and nothing else, and it has a geometry to report.
    pub proof fn lemma_geometry(&self)
        requires
            self.ready(),
        ensures
            self.sized(),
            self.bytes_per_block() > 0,
            self@.len() == self.bytes_per_block() * self.block_count(),
    {
        let b = self.block_size as int;
        let m = self.data@.len() as int / b;
        vstd::arithmetic::div_mod::lemma_fundamental_div_mod(self.data@.len() as int, b);
        vstd::arithmetic::div_mod::lemma_div_is_ordered_by_denominator(
            self.data@.len() as int,
            1,
            b,
        );
        assert(m == self.block_count());
    }

    /// A write that is not refused is read back by a read of as many bytes from the
    /// same block on, and changes nothing else: every other byte and the length stay.
    pub proof fn law_written_blocks_are_read(&self, lba: u64, buf: Seq<u8>)
        requires
            self.ready(),
            block::refused(buf.len(), lba, self.bytes_per_block(), self.block_count()) is None,
        ensures
            ({
                let off = lba * self.bytes_per_block();
                let after = block::spliced(self@, off, buf);
                &&& 0 <= off && off + buf.len() <= self@.len()
                &&& after.len() == self@.len()
                &&& after.subrange(off, off + buf.len()) == buf
                &&& forall|i: int|
                    0 <= i < self@.len() && !(off <= i < off + buf.len()) ==> #[trigger] after[i]
                        == self@[i]
            }),
    {
        let b = self.bytes_per_block() as int;
        let n = buf.len() as int / b;
        self.lemma_geometry();
        vstd::arithmetic::div_mod::lemma_fundamental_div_mod(buf.len() as int, b);
        vstd::arithmetic::div_mod::lemma_div_pos_is_pos(buf.len() as int, b);
        self.lemma_fits(lba as int, n);
        assert(n * b == b * n) by (nonlinear_arith);
        block::law_read_gives_back_write(self@, lba * b, buf);
    }

    /// The bytes of `n` blocks lie on the device.
    proof fn lemma_fits(&self, lba: int, n: int)
        requires
            self.ready(),
            0 <= lba,
            0 <= n,
            lba + n <= self.block_count(),
        ensures
            0 <= lba * self.block_size,
            lba * self.block_size + n * self.block_size == (lba + n) * self.block_size,
            (lba + n) * self.block_size <= self.data@.len(),
    {
        let b = self.block_size as int;
        let m = self.block_count() as int;
        vstd::arithmetic::div_mod::lemma_fundamental_div_mod(self.data@.len() as int, b);
        vstd::arithmetic::div_mod::lemma_div_is_ordered_by_denominator(
            self.data@.len() as int,
            1,
            b,
        );
        assert(m == self.data@.len() as int / b);
        assert(m * b == self.data@.len()) by (nonlinear_arith)
            requires
                self.data@.len() == b * m,
        ;
        assert(0 <= lba * b && lba * b + n * b == (lba + n) * b && (lba + n) * b <= m * b)
            by (nonlinear_arith)
            requires
                0 <= lba,
                0 <= n,
                0 < b,
                lba + n <= m,
        ;
    }
}

impl BlockDevice for MemBlockDevice {
    closed spec fn sized(&self) -> bool {
        self.block_size > 0
    }

    closed spec fn ready(&self) -> bool {
        &&& self.block_size > 0
        &&& self.data@.len() % self.block_size as nat == 0
        &&& self.data@.len() <= u64::MAX
    }

    open spec fn takes(&self, len: usize, lba: u64) -> bool {
        true
    }

    closed spec fn bytes_per_block(&self) -> u32 {
        self.block_size
    }

    closed spec fn block_count(&self) -> u64 {
        (self.data@.len() / self.block_size as nat) as u64
    }

    fn block_size(&self) -> (r: u32) {
        self.block_size
    }

    fn capacity_blocks(&self) -> (r: u64) {
        assert(self.data.len() == self.data@.len());
        self.data.len() as u64 / self.block_size as u64
    }

    fn read_blocks(&mut self, lba: u64, buf: &mut [u8]) -> (r: Result<(), BlockError>)
        ensures
            final(self)@ == old(self)@,
            ({
                let size = old(self).bytes_per_block();
                let len = old(buf)@.len();
                block::refused(len, lba, size, old(self).block_count()) is None ==> r is Ok
                    && final(buf)@ == old(self)@.subrange(lba * size, lba * size + len)
            }),
    {
        let n: u64 = match block::span_of(
            buf.len(),
            lba,
            self.block_size,
            self.capacity_blocks(),
        ) {
            Ok(n) => n,
            Err(e) => {
                return Err(e);
            },
        };
        proof {
            assert(self.data.len() == self.data@.len());
            self.lemma_fits(lba as int, n as int);
        }
        let off: usize = (lba * self.block_size as u64) as usize;
        let src: &[u8] = vstd::slice::slice_subrange(self.data.as_slice(), off, off + buf.len());
        block::copy_in(buf, 0, src);
        assert(buf@ =~= src@);
        Ok(())
    }

    fn write_blocks(&mut self, lba: u64, buf: &[u8]) -> (r: Result<(), BlockError>)
        ensures
            ({
                let size = old(self).bytes_per_block();
                block::refused(buf@.len(), lba, size, old(self).block_count()) is None ==> r is Ok
                    && final(self)@ == block::spliced(old(self)@, lba * size, buf@)
            }),
    {
        let n: u64 = match block::span_of(
            buf.len(),
            lba,
            self.block_size,
            self.capacity_blocks(),
        ) {
            Ok(n) => n,
            Err(e) => {
                return Err(e);
            },
        };
        proof {
            assert(self.data.len() == self.data@.len());
            self.lemma_fits(lba as int, n as int);
        }
        let off: usize = (lba * self.block_size as u64) as usize;
        block::copy_in(self.data.as_mut_slice(), off, buf);
        Ok(())
    }
}

} // verus!
