//! PCIe configuration space: addressing, typed access and bus enumeration.
use crate::mmio;
use crate::mmio::Access;
pub use crate::mmio::Mmio;
use vstd::prelude::*;

pub mod bus;
pub mod cfg_reg;

verus! {

/// Bus, device and function: the identity of a PCIe function.
#[derive(Clone, Copy, Debug, PartialEq, Eq, Hash, Structural)]
pub struct Bdf {
    pub bus: u8,
    pub dev: u8,
    pub func: u8,
}

impl Bdf {
    /// A device number has five bits and a function number three.
    pub open spec fn wf(self) -> bool {
        self.dev < 32 && self.func < 8
    }

    /// The function `func` of device `dev` on bus `bus`.
    pub fn new(bus: u8, dev: u8, func: u8) -> (r: Bdf)
        requires
            dev < 32,
            func < 8,
        ensures
            r == (Bdf { bus, dev, func }),
    {
        Bdf { bus, dev, func }
    }
}

/// Offset of register `reg` of function `bdf`: each function has a window of
/// 4 KiB.
pub open spec fn ecam(bdf: Bdf, reg: int) -> int {
    bdf.bus * 0x10_0000 + bdf.dev * 0x8000 + bdf.func * 0x1000 + reg % 0x1000
}

/// Offset of a function's register in the configuration region.
pub fn ecam_offset(bdf: Bdf, reg: u16) -> (r: usize)
    requires
        bdf.wf(),
    ensures
        r == ecam(bdf, reg as int),
{
    bdf.bus as usize * 0x10_0000 + bdf.dev as usize * 0x8000 + bdf.func as usize * 0x1000
        + reg as usize % 0x1000
}

/// Address of a function's register, given that of the region.
pub fn ecam_address(ecam_base_phys: u64, bdf: Bdf, reg: u16) -> (r: u64)
    requires
        bdf.wf(),
        ecam_base_phys + ecam(bdf, reg as int) <= u64::MAX,
    ensures
        r == ecam_base_phys + ecam(bdf, reg as int),
{
    ecam_base_phys + ecam_offset(bdf, reg) as u64
}

/// Two numbers are put together from a quotient and a remainder in one way only.
proof fn lemma_parts(q: int, r: int, p: int, s: int, d: int)
    by (nonlinear_arith)
    requires
        0 <= r < d,
        0 <= s < d,
        q * d + r == p * d + s,
    ensures
        q == p,
        r == s,
{
}

/// Different functions, and different registers of one function, lie at
/// different offsets.
pub proof fn law_offsets_distinct(a: Bdf, i: int, b: Bdf, j: int)
    requires
        a.wf(),
        b.wf(),
        0 <= i < 0x1000,
        0 <= j < 0x1000,
        ecam(a, i) == ecam(b, j),
    ensures
        a == b,
        i == j,
{
    lemma_parts(
        a.bus as int,
        a.dev * 0x8000 + a.func * 0x1000 + i,
        b.bus as int,
        b.dev * 0x8000 + b.func * 0x1000 + j,
        0x10_0000,
    );
    lemma_parts(a.dev as int, a.func * 0x1000 + i, b.dev as int, b.func * 0x1000 + j, 0x8000);
    lemma_parts(a.func as int, i, b.func as int, j, 0x1000);
}

/// What the vendor register of an absent function reads as.
pub const VENDOR_ID_NONE: u16 = 0xFFFF;

pub const HEADER_TYPE_ENDPOINT: u8 = 0x00;

pub const HEADER_TYPE_BRIDGE: u8 = 0x01;

pub const VID_BROADCOM: u16 = 0x14E4;

/// A read of the register that holds byte `reg`.
pub open spec fn word_read(bdf: Bdf, reg: int, w: u32) -> Access {
    Access::Read(ecam(bdf, mmio::word_of(reg)), w)
}

/// Offset of base address register `idx`.
pub open spec fn bar_offset(bdf: Bdf, idx: u8) -> int {
    ecam(bdf, cfg_reg::BAR0 + idx * 4)
}

/// The vendor in register word 0.
pub open spec fn vendor_in(w: u32) -> int {
    mmio::half_at(w, cfg_reg::VENDOR_ID as int)
}

/// The device in register word 0.
pub open spec fn device_in(w: u32) -> int {
    mmio::half_at(w, cfg_reg::DEVICE_ID as int)
}

/// The class in its register word.
pub open spec fn class_in(w: u32) -> int {
    mmio::byte_at(w, cfg_reg::CLASS_CODE + 2)
}

/// The subclass in its register word.
pub open spec fn subclass_in(w: u32) -> int {
    mmio::byte_at(w, cfg_reg::CLASS_CODE + 1)
}

/// The header layout in its register word.
pub open spec fn header_in(w: u32) -> int {
    mmio::byte_at(w, cfg_reg::HEADER_TYPE as int) % 0x80
}

/// The flag for further functions in its register word.
pub open spec fn multifunc_in(w: u32) -> bool {
    mmio::byte_at(w, cfg_reg::HEADER_TYPE as int) >= 0x80
}

/// Register word 0 names a vendor.
pub open spec fn present_in(w: u32) -> bool {
    vendor_in(w) != VENDOR_ID_NONE
}

/// One function's configuration registers.
pub struct ConfigSpace<'a, M: Mmio> {
    pub mmio: &'a mut M,
    pub bdf: Bdf,
}

impl<'a, M: Mmio> ConfigSpace<'a, M> {
    /// The registers of function `bdf`.
    pub fn new(mmio: &'a mut M, bdf: Bdf) -> (r: ConfigSpace<'a, M>)
        requires
            bdf.wf(),
        ensures
            r.bdf == bdf,
            *r.mmio == *old(mmio),
            *final(mmio) == *final(r.mmio),
    {
        ConfigSpace { mmio, bdf }
    }

    /// Reads a register.
    fn r32(&mut self, reg: u16) -> (v: u32)
        requires
            old(self).bdf.wf(),
            reg < 0x1000,
        ensures
            final(self).bdf == old(self).bdf,
            *final(final(self).mmio) == *final(old(self).mmio),
            final(self).mmio.trace() == old(self).mmio.trace().push(
                Access::Read(ecam(old(self).bdf, reg as int), v),
            ),
    {
        self.mmio.read32(ecam_offset(self.bdf, reg))
    }

    /// Writes a register.
    fn w32(&mut self, reg: u16, v: u32)
        requires
            old(self).bdf.wf(),
            reg < 0x1000,
        ensures
            final(self).bdf == old(self).bdf,
            *final(final(self).mmio) == *final(old(self).mmio),
            final(self).mmio.trace() == old(self).mmio.trace().push(
                Access::Write(ecam(old(self).bdf, reg as int), v),
            ),
    {
        self.mmio.write32(ecam_offset(self.bdf, reg), v);
    }

    /// Reads half a register.
    fn r16(&mut self, reg: u16) -> (v: u16)
        requires
            old(self).bdf.wf(),
            reg < 0x1000,
        ensures
            final(self).bdf == old(self).bdf,
            *final(final(self).mmio) == *final(old(self).mmio),
            ({
                let w = mmio::value_of(final(self).mmio.trace().last());
                &&& final(self).mmio.trace() == old(self).mmio.trace().push(
                    word_read(old(self).bdf, reg as int, w),
                )
                &&& v == mmio::half_at(w, reg as int)
            }),
    {
        let w: u32 = self.r32(reg / 4 * 4);
        if reg % 4 >= 2 {
            (w / 0x1_0000) as u16
        } else {
            (w % 0x1_0000) as u16
        }
    }

    /// Reads one byte of a register.
    fn r8(&mut self, reg: u16) -> (v: u8)
        requires
            old(self).bdf.wf(),
            reg < 0x1000,
        ensures
            final(self).bdf == old(self).bdf,
            *final(final(self).mmio) == *final(old(self).mmio),
            ({
                let w = mmio::value_of(final(self).mmio.trace().last());
                &&& final(self).mmio.trace() == old(self).mmio.trace().push(
                    word_read(old(self).bdf, reg as int, w),
                )
                &&& v == mmio::byte_at(w, reg as int)
            }),
    {
        let w: u32 = self.r32(reg / 4 * 4);
        if reg % 4 == 0 {
            (w % 0x100) as u8
        } else if reg % 4 == 1 {
            (w / 0x100 % 0x100) as u8
        } else if reg % 4 == 2 {
            (w / 0x1_0000 % 0x100) as u8
        } else {
            (w / 0x100_0000) as u8
        }
    }

    /// The vendor.
    pub fn vendor_id(&mut self) -> (v: u16)
        requires
            old(self).bdf.wf(),
        ensures
            final(self).bdf == old(self).bdf,
            *final(final(self).mmio) == *final(old(self).mmio),
            ({
                let w = mmio::value_of(final(self).mmio.trace().last());
                &&& final(self).mmio.trace() == old(self).mmio.trace().push(
                    word_read(old(self).bdf, cfg_reg::VENDOR_ID as int, w),
                )
                &&& v == vendor_in(w)
            }),
    {
        self.r16(cfg_reg::VENDOR_ID)
    }

    /// The device.
    pub fn device_id(&mut self) -> (v: u16)
        requires
            old(self).bdf.wf(),
        ensures
            final(self).bdf == old(self).bdf,
            *final(final(self).mmio) == *final(old(self).mmio),
            ({
                let w = mmio::value_of(final(self).mmio.trace().last());
                &&& final(self).mmio.trace() == old(self).mmio.trace().push(
                    word_read(old(self).bdf, cfg_reg::DEVICE_ID as int, w),
                )
                &&& v == device_in(w)
            }),
    {
        self.r16(cfg_reg::DEVICE_ID)
    }

    /// The layout of the header: endpoint or bridge.
    pub fn header_type(&mut self) -> (v: u8)
        requires
            old(self).bdf.wf(),
        ensures
            final(self).bdf == old(self).bdf,
            *final(final(self).mmio) == *final(old(self).mmio),
            ({
                let w = mmio::value_of(final(self).mmio.trace().last());
                &&& final(self).mmio.trace() == old(self).mmio.trace().push(
                    word_read(old(self).bdf, cfg_reg::HEADER_TYPE as int, w),
                )
                &&& v == header_in(w)
            }),
    {
        self.r8(cfg_reg::HEADER_TYPE) % 0x80
    }

    /// The device has more functions than this one.
    pub fn is_multifunc(&mut self) -> (v: bool)
        requires
            old(self).bdf.wf(),
        ensures
            final(self).bdf == old(self).bdf,
            *final(final(self).mmio) == *final(old(self).mmio),
            ({
                let w = mmio::value_of(final(self).mmio.trace().last());
                &&& final(self).mmio.trace() == old(self).mmio.trace().push(
                    word_read(old(self).bdf, cfg_reg::HEADER_TYPE as int, w),
                )
                &&& v == multifunc_in(w)
            }),
    {
        self.r8(cfg_reg::HEADER_TYPE) >= 0x80
    }

    /// The class of the device.
    pub fn class_code(&mut self) -> (v: u8)
        requires
            old(self).bdf.wf(),
        ensures
            final(self).bdf == old(self).bdf,
            *final(final(self).mmio) == *final(old(self).mmio),
            ({
                let w = mmio::value_of(final(self).mmio.trace().last());
                &&& final(self).mmio.trace() == old(self).mmio.trace().push(
                    word_read(old(self).bdf, cfg_reg::CLASS_CODE + 2, w),
                )
                &&& v == class_in(w)
            }),
    {
        self.r8(cfg_reg::CLASS_CODE + 2)
    }

    /// The subclass of the device.
    pub fn subclass(&mut self) -> (v: u8)
        requires
            old(self).bdf.wf(),
        ensures
            final(self).bdf == old(self).bdf,
            *final(final(self).mmio) == *final(old(self).mmio),
            ({
                let w = mmio::value_of(final(self).mmio.trace().last());
                &&& final(self).mmio.trace() == old(self).mmio.trace().push(
                    word_read(old(self).bdf, cfg_reg::CLASS_CODE + 1, w),
                )
                &&& v == subclass_in(w)
            }),
    {
        self.r8(cfg_reg::CLASS_CODE + 1)
    }

    /// Something answers for this function.
    pub fn is_present(&mut self) -> (v: bool)
        requires
            old(self).bdf.wf(),
        ensures
            final(self).bdf == old(self).bdf,
            *final(final(self).mmio) == *final(old(self).mmio),
            ({
                let w = mmio::value_of(final(self).mmio.trace().last());
                &&& final(self).mmio.trace() == old(self).mmio.trace().push(
                    word_read(old(self).bdf, cfg_reg::VENDOR_ID as int, w),
                )
                &&& v == present_in(w)
            }),
    {
        self.vendor_id() != VENDOR_ID_NONE
    }

    /// Reads base address register `idx`.
    pub fn bar(&mut self, idx: u8) -> (v: u32)
        requires
            old(self).bdf.wf(),
            idx < 6,
        ensures
            final(self).bdf == old(self).bdf,
            *final(final(self).mmio) == *final(old(self).mmio),
            final(self).mmio.trace() == old(self).mmio.trace().push(
                Access::Read(bar_offset(old(self).bdf, idx), v),
            ),
    {
        self.r32(cfg_reg::BAR0 + idx as u16 * 4)
    }

    /// Writes base address register `idx`.
    pub fn write_bar(&mut self, idx: u8, value: u32)
        requires
            old(self).bdf.wf(),
            idx < 6,
        ensures
            final(self).bdf == old(self).bdf,
            *final(final(self).mmio) == *final(old(self).mmio),
            final(self).mmio.trace() == old(self).mmio.trace().push(
                Access::Write(bar_offset(old(self).bdf, idx), value),
            ),
    {
        self.w32(cfg_reg::BAR0 + idx as u16 * 4, value);
    }
}

/// What sizing a base address register found.
#[derive(Clone, Copy, Debug, PartialEq, Eq, Structural)]
pub struct BarInfo {
    /// The register as it was; its low four bits say the kind.
    pub raw: u32,
    /// Size in bytes; 0 for an unused register.
    pub size: u32,
    /// An I/O region, not memory.
    pub is_io: bool,
    /// Memory that may be read ahead.
    pub prefetchable: bool,
}

/// What a register that held `raw`, and reads as `mask` after all ones were
/// written, says.
pub open spec fn bar_info(raw: u32, mask: u32) -> BarInfo {
    let is_io = raw % 2 == 1;
    let usable = if is_io {
        mask as int / 4 * 4
    } else {
        mask as int / 16 * 16
    };
    BarInfo {
        raw,
        size: (if usable == 0 {
            0
        } else {
            0x1_0000_0000 - usable
        }) as u32,
        is_io,
        prefetchable: !is_io && raw / 8 % 2 == 1,
    }
}

/// Sizes a base address register: all ones are written, the answer is read back,
/// and the register is restored.
pub fn size_bar<M: Mmio>(mmio: &mut M, bdf: Bdf, idx: u8) -> (r: BarInfo)
    requires
        bdf.wf(),
        idx < 6,
    ensures
        ({
            let off = bar_offset(bdf, idx);
            let t = final(mmio).trace();
            let mask = mmio::value_of(t[t.len() - 2]);
            &&& t == old(mmio).trace().push(Access::Read(off, r.raw)).push(
                Access::Write(off, 0xFFFF_FFFF),
            ).push(Access::Read(off, mask)).push(Access::Write(off, r.raw))
            &&& r == bar_info(r.raw, mask)
        }),
{
    let mut cfg: ConfigSpace<M> = ConfigSpace::new(mmio, bdf);
    let raw: u32 = cfg.bar(idx);
    cfg.write_bar(idx, 0xFFFF_FFFF);
    let mask: u32 = cfg.bar(idx);
    cfg.write_bar(idx, raw);
    let is_io: bool = raw % 2 == 1;
    let usable: u32 = if is_io {
        mask / 4 * 4
    } else {
        mask / 16 * 16
    };
    let size: u32 = if usable == 0 {
        0
    } else {
        0xFFFF_FFFF - usable + 1
    };
    BarInfo { raw, size, is_io, prefetchable: !is_io && raw / 8 % 2 == 1 }
}

/// A memory register whose writable bits are those above a power of two has that
/// power as its size.
pub proof fn law_bar_size(raw: u32, mask: u32, size: int, k: nat)
    requires
        raw % 2 == 0,
        size == vstd::arithmetic::power2::pow2(k),
        4 <= k < 32,
        mask as int / 16 * 16 == 0x1_0000_0000 - size,
    ensures
        bar_info(raw, mask).size == size,
        bar_info(raw, mask).raw == raw,
{
    vstd::arithmetic::power2::lemma2_to64();
    vstd::arithmetic::power2::lemma2_to64_rest();
    vstd::arithmetic::power2::lemma_pow2_pos(k);
    vstd::arithmetic::power2::lemma_pow2_strictly_increases(k, 32);
}

/// How many functions an enumeration keeps.
pub const MAX_FUNCTIONS: usize = 16;

/// One function that an enumeration found.
#[derive(Clone, Copy, Debug, PartialEq, Eq, Structural)]
pub struct FunctionInfo {
    pub bdf: Bdf,
    pub vendor_id: u16,
    pub device_id: u16,
    pub class_code: u8,
    pub subclass: u8,
    pub header_type: u8,
}

/// An entry that holds no function.
pub open spec fn blank_function() -> FunctionInfo {
    FunctionInfo {
        bdf: Bdf { bus: 0, dev: 0, func: 0 },
        vendor_id: 0,
        device_id: 0,
        class_code: 0,
        subclass: 0,
        header_type: 0,
    }
}

/// The functions found, in the order in which they were found.
pub struct Enumeration {
    pub funcs: [FunctionInfo; MAX_FUNCTIONS],
    pub count: usize,
}

impl View for Enumeration {
    type V = Seq<FunctionInfo>;

    open spec fn view(&self) -> Seq<FunctionInfo> {
        self.funcs@.take(self.count as int)
    }
}

impl Enumeration {
    /// The count says how much of the table is in use.
    pub open spec fn wf(self) -> bool {
        self.count <= MAX_FUNCTIONS
    }

    /// A table with nothing in it: every entry is zero.
    pub fn empty() -> (r: Enumeration)
        ensures
            r.wf(),
            r@ == Seq::<FunctionInfo>::empty(),
            r.count == 0,
            forall|i: int| 0 <= i < MAX_FUNCTIONS ==> #[trigger] r.funcs@[i] == blank_function(),
    {
        let none: FunctionInfo = FunctionInfo {
            bdf: Bdf { bus: 0, dev: 0, func: 0 },
            vendor_id: 0,
            device_id: 0,
            class_code: 0,
            subclass: 0,
            header_type: 0,
        };
        let r: Enumeration = Enumeration { funcs: [none; MAX_FUNCTIONS], count: 0 };
        assert(r@ =~= Seq::<FunctionInfo>::empty());
        r
    }

    /// Adds a function; a full table stays as it is.
    pub fn push(&mut self, f: FunctionInfo)
        requires
            old(self).wf(),
        ensures
            final(self).wf(),
            final(self)@ == kept(old(self)@, f),
            if old(self).count < MAX_FUNCTIONS {
                &&& final(self).count == old(self).count + 1
                &&& final(self).funcs@ == old(self).funcs@.update(old(self).count as int, f)
            } else {
                *final(self) == *old(self)
            },
    {
        if self.count < MAX_FUNCTIONS {
            let ghost before = self@;
            self.funcs[self.count] = f;
            self.count = self.count + 1;
            assert(self@ =~= before.push(f));
        }
    }

    /// The functions found.
    pub fn live(&self) -> (r: &[FunctionInfo])
        requires
            self.wf(),
        ensures
            r@ == self@,
    {
        vstd::slice::slice_subrange(vstd::array::array_as_slice(&self.funcs), 0, self.count)
    }

    /// The first function found with a vendor and device.
    pub fn find_by_vid_did(&self, vid: u16, did: u16) -> (r: Option<&FunctionInfo>)
        requires
            self.wf(),
        ensures
            match r {
                Some(f) => exists|i: int|
                    0 <= i < self@.len() && #[trigger] self@[i] == *f && f.vendor_id == vid
                        && f.device_id == did && forall|j: int|
                        0 <= j < i ==> !(#[trigger] self@[j].vendor_id == vid && self@[j].device_id
                            == did),
                None => forall|j: int|
                    0 <= j < self@.len() ==> !(#[trigger] self@[j].vendor_id == vid
                        && self@[j].device_id == did),
            },
    {
        let mut i: usize = 0;
        while i < self.count
            invariant
                self.wf(),
                i <= self.count,
                forall|j: int|
                    0 <= j < i ==> !(#[trigger] self@[j].vendor_id == vid && self@[j].device_id
                        == did),
            decreases self.count - i,
        {
            if self.funcs[i].vendor_id == vid && self.funcs[i].device_id == did {
                assert(self@[i as int] == self.funcs@[i as int]);
                return Some(&self.funcs[i]);
            }
            i = i + 1;
        }
        None
    }
}

/// A table of at most [`MAX_FUNCTIONS`] functions after `f` was offered.
pub open spec fn kept(s: Seq<FunctionInfo>, f: FunctionInfo) -> Seq<FunctionInfo> {
    if s.len() < MAX_FUNCTIONS {
        s.push(f)
    } else {
        s
    }
}

/// One function that was looked at, and the register words that it answered
/// with: the vendor word; where that names a vendor, the words of vendor, device,
/// class, subclass and header; and for function 0 the header word once more.
pub struct Probe {
    pub bdf: Bdf,
    pub words: Seq<u32>,
}

impl Probe {
    /// The function answered.
    pub open spec fn present(self) -> bool {
        present_in(self.words[0])
    }

    /// The reads that the look took.
    pub open spec fn reads(self) -> Seq<Access> {
        let first = seq![word_read(self.bdf, cfg_reg::VENDOR_ID as int, self.words[0])];
        if !self.present() {
            first
        } else {
            let all = first + seq![
                word_read(self.bdf, cfg_reg::VENDOR_ID as int, self.words[1]),
                word_read(self.bdf, cfg_reg::DEVICE_ID as int, self.words[2]),
                word_read(self.bdf, cfg_reg::CLASS_CODE + 2, self.words[3]),
                word_read(self.bdf, cfg_reg::CLASS_CODE + 1, self.words[4]),
                word_read(self.bdf, cfg_reg::HEADER_TYPE as int, self.words[5]),
            ];
            if self.bdf.func == 0 {
                all.push(word_read(self.bdf, cfg_reg::HEADER_TYPE as int, self.words[6]))
            } else {
                all
            }
        }
    }

    /// What is kept of a function that answered.
    pub open spec fn info(self) -> FunctionInfo {
        FunctionInfo {
            bdf: self.bdf,
            vendor_id: vendor_in(self.words[1]) as u16,
            device_id: device_in(self.words[2]) as u16,
            class_code: class_in(self.words[3]) as u8,
            subclass: subclass_in(self.words[4]) as u8,
            header_type: header_in(self.words[5]) as u8,
        }
    }

    /// Function 0 answered and says that there are more.
    pub open spec fn leads_on(self) -> bool {
        self.bdf.func == 0 && self.present() && multifunc_in(self.words[6])
    }

    /// The function to look at next: the further functions of a device that has
    /// them, else function 0 of the next device, up to the last bus.
    pub open spec fn next(self, max_bus: u8) -> Option<Bdf> {
        let b = self.bdf;
        if self.leads_on() || 0 < b.func < 7 {
            Some(Bdf { func: (b.func + 1) as u8, ..b })
        } else if b.dev < 31 {
            Some(Bdf { bus: b.bus, dev: (b.dev + 1) as u8, func: 0 })
        } else if b.bus < max_bus {
            Some(Bdf { bus: (b.bus + 1) as u8, dev: 0, func: 0 })
        } else {
            None
        }
    }
}

/// The reads of a series of looks.
pub open spec fn probe_reads(ps: Seq<Probe>) -> Seq<Access>
    decreases ps.len(),
{
    if ps.len() == 0 {
        Seq::empty()
    } else {
        probe_reads(ps.drop_last()) + ps.last().reads()
    }
}

/// What a series of looks found.
pub open spec fn found(ps: Seq<Probe>) -> Seq<FunctionInfo>
    decreases ps.len(),
{
    if ps.len() == 0 {
        Seq::empty()
    } else if ps.last().present() {
        kept(found(ps.drop_last()), ps.last().info())
    } else {
        found(ps.drop_last())
    }
}

/// Where the walk goes after the looks `ps`; it ends where the table is full.
pub open spec fn next_probe(ps: Seq<Probe>, max_bus: u8) -> Option<Bdf> {
    if ps.len() == 0 {
        Some(Bdf { bus: 0, dev: 0, func: 0 })
    } else if found(ps).len() >= MAX_FUNCTIONS {
        None
    } else {
        ps.last().next(max_bus)
    }
}

/// Each look of `ps` went where the walk leads.
#[verifier::opaque]
pub open spec fn in_order(ps: Seq<Probe>, max_bus: u8) -> bool {
    forall|i: int|
        0 <= i < ps.len() ==> next_probe(ps.take(i), max_bus) == Some((#[trigger] ps[i]).bdf)
}

/// Looks at one function: what it is where it answers, and whether its device has
/// more functions.
fn probe<M: Mmio>(mmio: &mut M, bdf: Bdf) -> (r: (Option<FunctionInfo>, bool, Ghost<Probe>))
    requires
        bdf.wf(),
    ensures
        r.2@.bdf == bdf,
        final(mmio).trace() == old(mmio).trace() + r.2@.reads(),
        r.0 == (if r.2@.present() {
            Some(r.2@.info())
        } else {
            None
        }),
        r.1 == r.2@.leads_on(),
{
    let ghost t0 = mmio.trace();
    let mut cfg: ConfigSpace<M> = ConfigSpace::new(mmio, bdf);
    let present: bool = cfg.is_present();
    let ghost w0 = mmio::value_of(cfg.mmio.trace().last());
    if !present {
        let ghost p = Probe { bdf, words: seq![w0] };
        assert(cfg.mmio.trace() =~= t0 + p.reads());
        return (None, false, Ghost(p));
    }
    let vendor_id: u16 = cfg.vendor_id();
    let ghost w1 = mmio::value_of(cfg.mmio.trace().last());
    let device_id: u16 = cfg.device_id();
    let ghost w2 = mmio::value_of(cfg.mmio.trace().last());
    let class_code: u8 = cfg.class_code();
    let ghost w3 = mmio::value_of(cfg.mmio.trace().last());
    let subclass: u8 = cfg.subclass();
    let ghost w4 = mmio::value_of(cfg.mmio.trace().last());
    let header_type: u8 = cfg.header_type();
    let ghost w5 = mmio::value_of(cfg.mmio.trace().last());
    let f: FunctionInfo = FunctionInfo {
        bdf,
        vendor_id,
        device_id,
        class_code,
        subclass,
        header_type,
    };
    if bdf.func == 0 {
        let more: bool = cfg.is_multifunc();
        let ghost w6 = mmio::value_of(cfg.mmio.trace().last());
        let ghost p = Probe { bdf, words: seq![w0, w1, w2, w3, w4, w5, w6] };
        assert(cfg.mmio.trace() =~= t0 + p.reads());
        (Some(f), more, Ghost(p))
    } else {
        let ghost p = Probe { bdf, words: seq![w0, w1, w2, w3, w4, w5] };
        assert(cfg.mmio.trace() =~= t0 + p.reads());
        (Some(f), false, Ghost(p))
    }
}

/// From `t0` to `t1` the buses up to `max_bus` were walked, and `out` was found.
pub open spec fn enumerated(
    t0: Seq<Access>,
    t1: Seq<Access>,
    max_bus: u8,
    out: Seq<FunctionInfo>,
) -> bool {
    exists|ps: Seq<Probe>| #[trigger] walked(t0, t1, max_bus, out, ps)
}

/// The same, with the looks that the walk took.
pub open spec fn walked(
    t0: Seq<Access>,
    t1: Seq<Access>,
    max_bus: u8,
    out: Seq<FunctionInfo>,
    ps: Seq<Probe>,
) -> bool {
    &&& in_order(ps, max_bus)
    &&& next_probe(ps, max_bus) is None
    &&& t1 == t0 + probe_reads(ps)
    &&& out == found(ps)
}

/// Walks every bus up to `max_bus` and collects the functions that answer, until
/// the table is full.
pub fn enumerate<M: Mmio>(mmio: &mut M, max_bus: u8) -> (out: Enumeration)
    ensures
        out.wf(),
        enumerated(old(mmio).trace(), final(mmio).trace(), max_bus, out@),
{
    let ghost t0 = mmio.trace();
    let ghost mut ps: Seq<Probe> = Seq::empty();
    let mut out: Enumeration = Enumeration::empty();
    let mut bdf: Bdf = Bdf { bus: 0, dev: 0, func: 0 };
    assert(t0 =~= t0 + probe_reads(ps));
    assert(in_order(ps, max_bus)) by {
        reveal(in_order);
    }
    loop
        invariant
            bdf.wf(),
            bdf.bus <= max_bus,
            out.wf(),
            out@ == found(ps),
            t0 == old(mmio).trace(),
            mmio.trace() == t0 + probe_reads(ps),
            in_order(ps, max_bus),
            next_probe(ps, max_bus) == Some(bdf),
        decreases max_bus - bdf.bus, 31 - bdf.dev, 7 - bdf.func,
    {
        let (f, more, Ghost(p)) = probe(mmio, bdf);
        if let Some(f) = f {
            out.push(f);
        }
        proof {
            let before = ps;
            ps = ps.push(p);
            assert(ps.drop_last() =~= before);
            assert(mmio.trace() =~= t0 + probe_reads(ps));
            reveal(in_order);
            assert forall|i: int| 0 <= i < ps.len() implies next_probe(ps.take(i), max_bus) == Some(
                (#[trigger] ps[i]).bdf,
            ) by {
                if i < before.len() {
                    assert(ps.take(i) =~= before.take(i));
                    assert(ps[i] == before[i]);
                } else {
                    assert(ps.take(i) =~= before);
                }
            }
        }
        assert(out.count == out@.len());
        if out.count >= MAX_FUNCTIONS {
            assert(walked(t0, mmio.trace(), max_bus, out@, ps));
            return out;
        }
        if more || (0 < bdf.func && bdf.func < 7) {
            bdf = Bdf { bus: bdf.bus, dev: bdf.dev, func: bdf.func + 1 };
        } else if bdf.dev < 31 {
            bdf = Bdf { bus: bdf.bus, dev: bdf.dev + 1, func: 0 };
        } else if bdf.bus < max_bus {
            bdf = Bdf { bus: bdf.bus + 1, dev: 0, func: 0 };
        } else {
            assert(walked(t0, mmio.trace(), max_bus, out@, ps));
            return out;
        }
    }
}

/// A look is where the walk starts, or where the look before it led.
pub proof fn lemma_walk_step(ps: Seq<Probe>, max_bus: u8, i: int)
    requires
        in_order(ps, max_bus),
        0 <= i < ps.len(),
    ensures
        i == 0 ==> ps[i].bdf == (Bdf { bus: 0, dev: 0, func: 0 }),
        i > 0 ==> ps[i - 1].next(max_bus) == Some(ps[i].bdf),
{
    reveal(in_order);
    assert(next_probe(ps.take(i), max_bus) == Some(ps[i].bdf));
    if i > 0 {
        assert(ps.take(i).last() == ps[i - 1]);
    }
}

/// Where function 0 of a device is absent, or says that it is alone, the other
/// functions are not looked at: each look at another function follows one at
/// function 0 that answered and led on.
pub proof fn law_function_zero_leads(ps: Seq<Probe>, max_bus: u8, i: int)
    requires
        in_order(ps, max_bus),
        0 <= i < ps.len(),
        ps[i].bdf.func > 0,
    ensures
        exists|j: int|
            0 <= j < i && (#[trigger] ps[j]).bdf == (Bdf { func: 0, ..ps[i].bdf })
                && ps[j].leads_on(),
    decreases i,
{
    lemma_walk_step(ps, max_bus, i);
    if ps[i - 1].bdf.func > 0 {
        law_function_zero_leads(ps, max_bus, i - 1);
    }
}

/// The place of a function in the walk.
pub open spec fn walk_place(b: Bdf) -> int {
    b.bus * 256 + b.dev * 8 + b.func
}

/// The walk never looks at a function twice, nor goes back.
pub proof fn law_walk_goes_forward(ps: Seq<Probe>, max_bus: u8, i: int, j: int)
    requires
        in_order(ps, max_bus),
        0 <= i < j < ps.len(),
    ensures
        walk_place(ps[i].bdf) < walk_place(ps[j].bdf),
        ps[j].bdf.bus <= max_bus,
        ps[j].bdf.wf(),
    decreases j,
{
    lemma_walk_wf(ps, max_bus, j - 1);
    lemma_walk_step(ps, max_bus, j);
    if i < j - 1 {
        law_walk_goes_forward(ps, max_bus, i, j - 1);
    }
}

/// Every look is at a function that there can be.
pub proof fn lemma_walk_wf(ps: Seq<Probe>, max_bus: u8, j: int)
    requires
        in_order(ps, max_bus),
        0 <= j < ps.len(),
    ensures
        ps[j].bdf.wf(),
        ps[j].bdf.bus <= max_bus,
    decreases j,
{
    lemma_walk_step(ps, max_bus, j);
    if j > 0 {
        lemma_walk_wf(ps, max_bus, j - 1);
    }
}

/// An enumeration keeps no more than the table holds.
pub proof fn law_enumeration_is_bounded(ps: Seq<Probe>)
    ensures
        found(ps).len() <= MAX_FUNCTIONS,
    decreases ps.len(),
{
    if ps.len() > 0 {
        law_enumeration_is_bounded(ps.drop_last());
    }
}

/// A walk that ended with room left has looked at function 0 of every device on
/// every bus up to the last.
pub proof fn law_walk_covers_devices(ps: Seq<Probe>, max_bus: u8, bus: u8, dev: u8)
    requires
        in_order(ps, max_bus),
        ps.len() > 0,
        next_probe(ps, max_bus) is None,
        found(ps).len() < MAX_FUNCTIONS,
        bus <= max_bus,
        dev < 32,
    ensures
        exists|i: int| 0 <= i < ps.len() && (#[trigger] ps[i]).bdf == (Bdf { bus, dev, func: 0 }),
{
    lemma_walk_wf(ps, max_bus, ps.len() - 1);
    let last = ps.last().bdf;
    assert(last.bus == max_bus && last.dev == 31);
    lemma_walk_passed(ps, max_bus, ps.len() - 1, bus, dev);
}

/// Before the walk stands at a function, it has passed function 0 of each earlier
/// device, and of that function's own.
proof fn lemma_walk_passed(ps: Seq<Probe>, max_bus: u8, at: int, bus: u8, dev: u8)
    requires
        in_order(ps, max_bus),
        0 <= at < ps.len(),
        dev < 32,
        bus * 32 + dev <= ps[at].bdf.bus * 32 + ps[at].bdf.dev,
    ensures
        exists|i: int| 0 <= i <= at && (#[trigger] ps[i]).bdf == (Bdf { bus, dev, func: 0 }),
    decreases at,
{
    lemma_walk_wf(ps, max_bus, at);
    let here = ps[at].bdf;
    if here.func == 0 && here.bus * 32 + here.dev == bus * 32 + dev {
        assert(ps[at].bdf == (Bdf { bus, dev, func: 0 }));
    } else {
        lemma_walk_step(ps, max_bus, at);
        if at > 0 {
            lemma_walk_wf(ps, max_bus, at - 1);
            lemma_walk_passed(ps, max_bus, at - 1, bus, dev);
        }
    }
}

} // verus!
