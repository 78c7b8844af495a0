//! Access to device registers.
use vstd::prelude::*;

verus! {

/// One access to a 32-bit register: its offset, and the value read or written.
pub enum Access {
    Read(int, u32),
    Write(int, u32),
}

/// The register that holds the byte at `off`.
pub open spec fn word_of(off: int) -> int {
    off / 4 * 4
}

/// The half word at `off` of its register.
pub open spec fn half_at(w: u32, off: int) -> int {
    if off % 4 >= 2 {
        w as int / 65536
    } else {
        w as int % 65536
    }
}

/// Its register with the half word at `off` replaced.
pub open spec fn with_half(w: u32, off: int, v: u16) -> int {
    if off % 4 >= 2 {
        w as int % 65536 + v * 65536
    } else {
        w as int / 65536 * 65536 + v
    }
}

/// The byte at `off` of its register.
pub open spec fn byte_at(w: u32, off: int) -> int {
    if off % 4 == 0 {
        w as int % 0x100
    } else if off % 4 == 1 {
        w as int / 0x100 % 0x100
    } else if off % 4 == 2 {
        w as int / 0x1_0000 % 0x100
    } else {
        w as int / 0x100_0000
    }
}

/// Its register with the byte at `off` replaced.
pub open spec fn with_byte(w: u32, off: int, v: u8) -> int {
    if off % 4 == 0 {
        w as int / 0x100 * 0x100 + v
    } else if off % 4 == 1 {
        w as int / 0x1_0000 * 0x1_0000 + v * 0x100 + w as int % 0x100
    } else if off % 4 == 2 {
        w as int / 0x100_0000 * 0x100_0000 + v * 0x1_0000 + w as int % 0x1_0000
    } else {
        v * 0x100_0000 + w as int % 0x100_0000
    }
}

/// The value that an access read or wrote.
pub open spec fn value_of(a: Access) -> u32 {
    match a {
        Access::Read(_, v) => v,
        Access::Write(_, v) => v,
    }
}

/// The accesses to a window, in their order.
pub type Trace = Seq<Access>;

/// A window of 32-bit device registers.
///
/// A device may answer a read with anything. Contracts speak of the accesses
/// made so far ([`Mmio::trace`]), which each access extends by one. Narrower
/// accesses go through the surrounding 32-bit register.
pub trait Mmio {
    /// The accesses made so far.
    spec fn trace(&self) -> Trace;

    /// Reads the register at `offset`.
    fn read32(&mut self, offset: usize) -> (v: u32)
        ensures
            final(self).trace() == old(self).trace().push(Access::Read(offset as int, v)),
    ;

    /// Writes the register at `offset`.
    fn write32(&mut self, offset: usize, value: u32)
        ensures
            final(self).trace() == old(self).trace().push(Access::Write(offset as int, value)),
    ;

    /// Reads the half word at `off`.
    fn read16(&mut self, off: usize) -> (v: u16)
        ensures
            ({
                let w = value_of(final(self).trace().last());
                &&& final(self).trace() == old(self).trace().push(
                    Access::Read(word_of(off as int), w),
                )
                &&& v == half_at(w, off as int)
            }),
    {
        let w: u32 = self.read32(off / 4 * 4);
        if off % 4 >= 2 {
            (w / 65536) as u16
        } else {
            (w % 65536) as u16
        }
    }

    /// Reads the byte at `off`.
    fn read8(&mut self, off: usize) -> (v: u8)
        ensures
            ({
                let w = value_of(final(self).trace().last());
                &&& final(self).trace() == old(self).trace().push(
                    Access::Read(word_of(off as int), w),
                )
                &&& v == byte_at(w, off as int)
            }),
    {
        let w: u32 = self.read32(off / 4 * 4);
        if off % 4 == 0 {
            (w % 256) as u8
        } else if off % 4 == 1 {
            (w / 0x100 % 256) as u8
        } else if off % 4 == 2 {
            (w / 0x1_0000 % 256) as u8
        } else {
            (w / 0x100_0000) as u8
        }
    }

    /// Replaces the half word at `off`.
    fn write16(&mut self, off: usize, v: u16)
        ensures
            ({
                let w = value_of(final(self).trace().drop_last().last());
                final(self).trace() == old(self).trace().push(
                    Access::Read(word_of(off as int), w),
                ).push(Access::Write(word_of(off as int), with_half(w, off as int, v) as u32))
            }),
    {
        let aligned: usize = off / 4 * 4;
        let w: u32 = self.read32(aligned);
        let merged: u32 = if off % 4 >= 2 {
            w % 65536 + v as u32 * 65536
        } else {
            w / 65536 * 65536 + v as u32
        };
        self.write32(aligned, merged);
    }

    /// Replaces the byte at `off`.
    fn write8(&mut self, off: usize, v: u8)
        ensures
            ({
                let w = value_of(final(self).trace().drop_last().last());
                final(self).trace() == old(self).trace().push(
                    Access::Read(word_of(off as int), w),
                ).push(Access::Write(word_of(off as int), with_byte(w, off as int, v) as u32))
            }),
    {
        let aligned: usize = off / 4 * 4;
        let w: u32 = self.read32(aligned);
        let merged: u32 = if off % 4 == 0 {
            w / 0x100 * 0x100 + v as u32
        } else if off % 4 == 1 {
            w / 0x1_0000 * 0x1_0000 + v as u32 * 0x100 + w % 0x100
        } else if off % 4 == 2 {
            w / 0x100_0000 * 0x100_0000 + v as u32 * 0x1_0000 + w % 0x1_0000
        } else {
            v as u32 * 0x100_0000 + w % 0x100_0000
        };
        assert(merged == with_byte(w, off as int, v));
        self.write32(aligned, merged);
    }
}

/// Reads of one register that gave the values `vals`.
pub open spec fn reads(off: int, vals: Seq<u32>) -> Seq<Access> {
    vals.map_values(|v: u32| Access::Read(off, v))
}

/// One more read.
pub proof fn lemma_reads_push(off: int, vals: Seq<u32>, v: u32)
    ensures
        reads(off, vals.push(v)) == reads(off, vals).push(Access::Read(off, v)),
{
    assert(reads(off, vals.push(v)) =~= reads(off, vals).push(Access::Read(off, v)));
}

} // verus!
