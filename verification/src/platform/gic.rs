//! The GICv3 interrupt controller.
use crate::bits;
use crate::mmio;
use crate::mmio::{Access, Mmio};
use vstd::arithmetic::power2::pow2;
use vstd::prelude::*;

pub mod gicd;
pub mod gicr;

verus! {

/// What an acknowledge reads where no interrupt is pending.
pub const IRQ_SPURIOUS: u32 = 1023;

/// The priority that every interrupt gets, four of them in a word.
pub const PRIORITIES: u32 = 0xA0A0_A0A0;

/// All 32 interrupts of a word.
pub const ALL: u32 = 0xFFFF_FFFF;

/// Distributor and redistributor.
pub struct Gic<D: Mmio, R: Mmio> {
    pub gicd: D,
    pub gicr: R,
}

/// Interrupt lines that the type register announces.
pub open spec fn line_count(typer: u32) -> int {
    (typer as int % 32 + 1) * 32
}

/// The writes that put word `i` of interrupts into group 1, disabled and not
/// pending.
pub open spec fn quiet_word(i: int) -> Seq<Access> {
    seq![
        Access::Write(gicd::IGROUPR + i * 4, ALL),
        Access::Write(gicd::ICENABLER + i * 4, ALL),
        Access::Write(gicd::ICPENDR + i * 4, ALL),
    ]
}

/// The writes for words 1 to `n`, not included.
pub open spec fn quiet_words(n: int) -> Seq<Access>
    decreases n,
{
    if n <= 1 {
        Seq::empty()
    } else {
        quiet_words(n - 1) + quiet_word(n - 1)
    }
}

/// The priority writes for interrupts `from` to `to`, four at a time.
pub open spec fn priority_writes(at: int, from: int, to: int) -> Seq<Access> {
    Seq::new(
        if to <= from {
            0
        } else {
            ((to - from) / 4) as nat
        },
        |i: int| Access::Write(at + from + 4 * i, PRIORITIES),
    )
}

/// The accesses that set a distributor up.
pub open spec fn distributor_accesses(typer: u32) -> Seq<Access> {
    seq![Access::Write(gicd::CTLR as int, 0), Access::Read(gicd::TYPER as int, typer)]
        + quiet_words(line_count(typer) / 32) + priority_writes(
        gicd::IPRIORITYR as int,
        32,
        line_count(typer),
    ) + seq![
        Access::Write(
            gicd::CTLR as int,
            (gicd::CTLR_ENABLE_GRP0 + gicd::CTLR_ENABLE_GRP1_NS + gicd::CTLR_ARE_S) as u32,
        ),
    ]
}

/// Sets the distributor up: every shared interrupt in group 1, disabled, not
/// pending, at medium priority.
pub fn init_distributor<D: Mmio>(d: &mut D)
    ensures
        ({
            let n = old(d).trace().len() as int;
            let t = final(d).trace();
            t == old(d).trace() + distributor_accesses(mmio::value_of(t[n + 1]))
        }),
{
    let ghost t0 = d.trace();
    d.write32(gicd::CTLR, 0);
    let typer: u32 = d.read32(gicd::TYPER);
    let lines: usize = (typer as usize % 32 + 1) * 32;
    let ghost head = seq![
        Access::Write(gicd::CTLR as int, 0),
        Access::Read(gicd::TYPER as int, typer),
    ];
    assert(d.trace() =~= t0 + head + quiet_words(1));
    let mut i: usize = 1;
    while i < lines / 32
        invariant
            1 <= i <= lines / 32,
            lines == line_count(typer),
            lines <= 1024,
            d.trace() == t0 + head + quiet_words(i as int),
        decreases lines / 32 - i,
    {
        d.write32(gicd::IGROUPR + i * 4, ALL);
        d.write32(gicd::ICENABLER + i * 4, ALL);
        d.write32(gicd::ICPENDR + i * 4, ALL);
        assert(d.trace() =~= t0 + head + quiet_words(i + 1));
        i = i + 1;
    }
    let ghost before = t0 + head + quiet_words(line_count(typer) / 32);
    let ghost at = gicd::IPRIORITYR as int;
    assert(d.trace() =~= before + priority_writes(at, 32, 32));
    let mut k: usize = 32;
    while k < lines
        invariant
            32 <= k <= lines,
            k % 4 == 0,
            lines % 4 == 0,
            lines <= 1024,
            at == gicd::IPRIORITYR,
            d.trace() == before + priority_writes(at, 32, k as int),
        decreases lines - k,
    {
        d.write32(gicd::IPRIORITYR + k, PRIORITIES);
        assert(priority_writes(at, 32, k + 4) =~= priority_writes(at, 32, k as int).push(
            Access::Write(at + k, PRIORITIES),
        ));
        assert(d.trace() =~= before + priority_writes(at, 32, k + 4));
        k = k + 4;
    }
    d.write32(
        gicd::CTLR,
        gicd::CTLR_ENABLE_GRP0 + gicd::CTLR_ENABLE_GRP1_NS + gicd::CTLR_ARE_S,
    );
    assert(d.trace() =~= t0 + distributor_accesses(typer));
}

/// Asks the redistributor to wake up.
pub fn wake_redistributor<R: Mmio>(r: &mut R)
    ensures
        ({
            let n = old(r).trace().len() as int;
            let t = final(r).trace();
            let waker = mmio::value_of(t[n]);
            t == old(r).trace().push(Access::Read(gicr::WAKER as int, waker)).push(
                Access::Write(gicr::WAKER as int, waker & !gicr::WAKER_PROCESSOR_SLEEP),
            )
        }),
{
    let waker: u32 = r.read32(gicr::WAKER);
    r.write32(gicr::WAKER, waker & !gicr::WAKER_PROCESSOR_SLEEP);
}

/// One look at whether the redistributor is awake. Setup goes on only after it
/// is.
pub fn redistributor_awake<R: Mmio>(r: &mut R) -> (awake: bool)
    ensures
        ({
            let waker = mmio::value_of(final(r).trace().last());
            &&& final(r).trace() == old(r).trace().push(Access::Read(gicr::WAKER as int, waker))
            &&& awake == (waker & gicr::WAKER_CHILDREN_ASLEEP == 0)
        }),
{
    r.read32(gicr::WAKER) & gicr::WAKER_CHILDREN_ASLEEP == 0
}

/// Sets a redistributor up that is awake: the processor's own interrupts in group
/// 1, disabled, at medium priority.
pub fn init_redistributor<R: Mmio>(r: &mut R)
    ensures
        final(r).trace() == old(r).trace() + (seq![
            Access::Write(gicr::IGROUPR0 as int, ALL),
            Access::Write(gicr::ICENABLER0 as int, ALL),
        ] + priority_writes(gicr::IPRIORITYR as int, 0, 32)),
{
    let ghost t0 = r.trace();
    r.write32(gicr::IGROUPR0, ALL);
    r.write32(gicr::ICENABLER0, ALL);
    let ghost head = seq![
        Access::Write(gicr::IGROUPR0 as int, ALL),
        Access::Write(gicr::ICENABLER0 as int, ALL),
    ];
    let ghost at = gicr::IPRIORITYR as int;
    assert(r.trace() =~= t0 + (head + priority_writes(at, 0, 0)));
    let mut i: usize = 0;
    while i < 32
        invariant
            i <= 32,
            i % 4 == 0,
            at == gicr::IPRIORITYR,
            r.trace() == t0 + (head + priority_writes(at, 0, i as int)),
        decreases 32 - i,
    {
        r.write32(gicr::IPRIORITYR + i, PRIORITIES);
        assert(priority_writes(at, 0, i + 4) =~= priority_writes(at, 0, i as int).push(
            Access::Write(at + i, PRIORITIES),
        ));
        assert(r.trace() =~= t0 + (head + priority_writes(at, 0, i + 4)));
        i = i + 4;
    }
}

/// A register of the processor's interrupt interface.
#[derive(Clone, Copy, PartialEq, Eq, Structural, Debug)]
pub enum IccReg {
    /// System register interface enable.
    Sre,
    /// Priority mask.
    Pmr,
    /// Binary point.
    Bpr1,
    /// Group 1 enable.
    Igrpen1,
}

/// The register writes that set the processor's interface up, in order, given the
/// value of the enable register: interface on, all priorities, no grouping,
/// group 1 on.
pub fn cpu_interface_writes(sre: u64) -> (r: Vec<(IccReg, u64)>)
    ensures
        r@ == seq![
            (IccReg::Sre, sre | 1),
            (IccReg::Pmr, 0xFF),
            (IccReg::Bpr1, 0),
            (IccReg::Igrpen1, 1),
        ],
{
    let mut r: Vec<(IccReg, u64)> = Vec::new();
    r.push((IccReg::Sre, sre | 1));
    r.push((IccReg::Pmr, 0xFF));
    r.push((IccReg::Bpr1, 0));
    r.push((IccReg::Igrpen1, 1));
    r
}

impl<D: Mmio, R: Mmio> Gic<D, R> {
    /// Enables an interrupt.
    pub fn enable_irq(&mut self, irq: u32)
        requires
            irq < IRQ_SPURIOUS,
        ensures
            if irq < 32 {
                &&& final(self).gicd.trace() == old(self).gicd.trace()
                &&& final(self).gicr.trace() == old(self).gicr.trace().push(
                    Access::Write(gicr::ISENABLER0 as int, pow2(irq as nat) as u32),
                )
            } else {
                &&& final(self).gicr.trace() == old(self).gicr.trace()
                &&& final(self).gicd.trace() == old(self).gicd.trace().push(
                    Access::Write(
                        gicd::ISENABLER + irq / 32 * 4,
                        pow2((irq % 32) as nat) as u32,
                    ),
                )
            },
    {
        if irq < 32 {
            self.gicr.write32(gicr::ISENABLER0, bits::power(irq));
        } else {
            self.gicd.write32(gicd::ISENABLER + irq as usize / 32 * 4, bits::power(irq % 32));
        }
    }

    /// Disables an interrupt.
    pub fn disable_irq(&mut self, irq: u32)
        requires
            irq < IRQ_SPURIOUS,
        ensures
            if irq < 32 {
                &&& final(self).gicd.trace() == old(self).gicd.trace()
                &&& final(self).gicr.trace() == old(self).gicr.trace().push(
                    Access::Write(gicr::ICENABLER0 as int, pow2(irq as nat) as u32),
                )
            } else {
                &&& final(self).gicr.trace() == old(self).gicr.trace()
                &&& final(self).gicd.trace() == old(self).gicd.trace().push(
                    Access::Write(
                        gicd::ICENABLER + irq / 32 * 4,
                        pow2((irq % 32) as nat) as u32,
                    ),
                )
            },
    {
        if irq < 32 {
            self.gicr.write32(gicr::ICENABLER0, bits::power(irq));
        } else {
            self.gicd.write32(gicd::ICENABLER + irq as usize / 32 * 4, bits::power(irq % 32));
        }
    }
}

/// The register word and bit of an interrupt belong to it alone.
pub proof fn law_irq_bit_is_its_own(a: u32, b: u32)
    requires
        a / 32 == b / 32,
        pow2((a % 32) as nat) == pow2((b % 32) as nat),
    ensures
        a == b,
{
    if a % 32 < b % 32 {
        vstd::arithmetic::power2::lemma_pow2_strictly_increases((a % 32) as nat, (b % 32) as nat);
    } else if b % 32 < a % 32 {
        vstd::arithmetic::power2::lemma_pow2_strictly_increases((b % 32) as nat, (a % 32) as nat);
    }
}

/// The first words have their writes among those for the words up to `n`.
proof fn lemma_quiet_words(n: int, k: int)
    requires
        1 <= k < n,
    ensures
        quiet_words(n).contains(Access::Write(0x80 + 4 * k, 0xFFFF_FFFF)),
        quiet_words(n).contains(Access::Write(0x180 + 4 * k, 0xFFFF_FFFF)),
        quiet_words(n).contains(Access::Write(0x280 + 4 * k, 0xFFFF_FFFF)),
    decreases n,
{
    let before = quiet_words(n - 1);
    let last = quiet_word(n - 1);
    assert(quiet_words(n) == before + last);
    if k < n - 1 {
        lemma_quiet_words(n - 1, k);
        let i = before.index_of(Access::Write(0x80 + 4 * k, 0xFFFF_FFFF));
        let j = before.index_of(Access::Write(0x180 + 4 * k, 0xFFFF_FFFF));
        let l = before.index_of(Access::Write(0x280 + 4 * k, 0xFFFF_FFFF));
        assert((before + last)[i] == before[i]);
        assert((before + last)[j] == before[j]);
        assert((before + last)[l] == before[l]);
    } else {
        let b = before.len() as int;
        assert((before + last)[b] == last[0]);
        assert((before + last)[b + 1] == last[1]);
        assert((before + last)[b + 2] == last[2]);
    }
}

/// Every shared interrupt that the distributor has, 32 times one more than the low five bits
/// of the type register say, is set up: its bit is set in the registers for group 1, for
/// disabling and for clearing, and its byte in the priorities is 0xA0. The distributor is off
/// from the first access on and is turned on, for both groups, by the last.
pub proof fn law_every_line_is_set_up(typer: u32, irq: int)
    requires
        32 <= irq < 32 * (typer as int % 32 + 1),
    ensures
        ({
            let t = distributor_accesses(typer);
            let w = irq / 32;
            &&& t[0] == Access::Write(0, 0)
            &&& t[1] == Access::Read(4, typer)
            &&& t.contains(Access::Write(0x80 + 4 * w, 0xFFFF_FFFF))
            &&& t.contains(Access::Write(0x180 + 4 * w, 0xFFFF_FFFF))
            &&& t.contains(Access::Write(0x280 + 4 * w, 0xFFFF_FFFF))
            &&& t.contains(Access::Write(0x400 + irq / 4 * 4, 0xA0A0_A0A0))
            &&& t.last() == Access::Write(0, 0x13)
        }),
{
    let n = line_count(typer) / 32;
    let head = seq![Access::Write(gicd::CTLR as int, 0), Access::Read(gicd::TYPER as int, typer)];
    let quiet = quiet_words(n);
    let prio = priority_writes(gicd::IPRIORITYR as int, 32, line_count(typer));
    let t = distributor_accesses(typer);
    lemma_quiet_words(n, irq / 32);
    let i = quiet.index_of(Access::Write(0x80 + 4 * (irq / 32), 0xFFFF_FFFF));
    let j = quiet.index_of(Access::Write(0x180 + 4 * (irq / 32), 0xFFFF_FFFF));
    let l = quiet.index_of(Access::Write(0x280 + 4 * (irq / 32), 0xFFFF_FFFF));
    assert(t[2 + i] == quiet[i]);
    assert(t[2 + j] == quiet[j]);
    assert(t[2 + l] == quiet[l]);
    let p = (irq - 32) / 4;
    assert(0 <= p < prio.len());
    assert(t[2 + quiet.len() + p] == prio[p]);
    assert(prio[p] == Access::Write(0x400 + irq / 4 * 4, 0xA0A0_A0A0));
}

/// A priority word is written for every four interrupts from the first to the last, at the
/// address of the first of them.
pub proof fn law_priorities_cover_the_lines(at: int, from: int, to: int, irq: int)
    requires
        0 <= from <= irq < to,
        from % 4 == 0,
        to % 4 == 0,
    ensures
        priority_writes(at, from, to).contains(Access::Write(at + irq / 4 * 4, 0xA0A0_A0A0)),
{
    let p = (irq - from) / 4;
    let t = priority_writes(at, from, to);
    assert(0 <= p < t.len());
    assert(t[p] == Access::Write(at + irq / 4 * 4, 0xA0A0_A0A0));
}

} // verus!
