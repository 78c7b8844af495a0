//! What an enumeration finds on a bus: the functions that are there, with what their
//! registers say.
use crate::mmio::Access;
use crate::pcie;
use crate::pcie::{Bdf, FunctionInfo, Probe};
use vstd::prelude::*;

verus! {

/// Where a function's configuration registers are: 1 MiB for each bus, 32 KiB for each
/// device and 4 KiB for each function.
pub open spec fn config_at(b: Bdf, reg: int) -> int {
    b.bus * 0x10_0000 + b.dev * 0x8000 + b.func * 0x1000 + reg
}

/// The register words that the functions hold, by their offset.
pub type Config = spec_fn(int) -> u32;

/// A function is there: its vendor, the lower half of its first word, is not all ones.
pub open spec fn is_there(c: Config, b: Bdf) -> bool {
    c(config_at(b, 0)) as int % 0x1_0000 != 0xFFFF
}

/// Function 0 is there and says, in the highest bit of the third byte of its fourth word,
/// that its device has more functions.
pub open spec fn has_more(c: Config, b: Bdf) -> bool {
    is_there(c, b) && c(config_at(b, 0x0C)) as int / 0x80_0000 % 2 == 1
}

/// What the registers of a function say: vendor and device in the first word, class and
/// subclass in the two upper bytes of the third, and the layout in the third byte of the
/// fourth.
pub open spec fn described(c: Config, b: Bdf, f: FunctionInfo) -> bool {
    &&& f.bdf == b
    &&& f.vendor_id == c(config_at(b, 0)) as int % 0x1_0000
    &&& f.device_id == c(config_at(b, 0)) as int / 0x1_0000
    &&& f.class_code == c(config_at(b, 0x08)) as int / 0x100_0000
    &&& f.subclass == c(config_at(b, 0x08)) as int / 0x1_0000 % 0x100
    &&& f.header_type == c(config_at(b, 0x0C)) as int / 0x1_0000 % 0x80
}

/// Every read from `t0` on gave what the register holds.
pub open spec fn answered(c: Config, t0: Seq<Access>, t1: Seq<Access>) -> bool {
    forall|i: int|
        t0.len() <= i < t1.len() ==> (#[trigger] t1[i] matches Access::Read(off, v) ==> v == c(off))
}

/// The reads of every look gave what the registers hold.
pub open spec fn looks_answered(c: Config, ps: Seq<Probe>) -> bool {
    forall|i: int| 0 <= i < ps.len() ==> answered(c, Seq::empty(), (#[trigger] ps[i]).reads())
}

proof fn lemma_looks(c: Config, t0: Seq<Access>, ps: Seq<Probe>)
    requires
        answered(c, t0, t0 + pcie::probe_reads(ps)),
    ensures
        looks_answered(c, ps),
    decreases ps.len(),
{
    if ps.len() > 0 {
        let some = ps.drop_last();
        let t = t0 + pcie::probe_reads(ps);
        let u = t0 + pcie::probe_reads(some);
        let last = ps.last().reads();
        assert(t =~= u + last);
        assert(answered(c, t0, u)) by {
            assert forall|i: int| t0.len() <= i < u.len() implies (#[trigger] u[i] matches Access::Read(off, v)
                ==> v == c(off)) by {
                assert(t[i] == u[i]);
            }
        }
        lemma_looks(c, t0, some);
        assert(answered(c, Seq::empty(), last)) by {
            assert forall|i: int| 0 <= i < last.len() implies (#[trigger] last[i] matches Access::Read(off, v)
                ==> v == c(off)) by {
                assert(t[u.len() + i] == last[i]);
            }
        }
        assert forall|i: int| 0 <= i < ps.len() implies answered(
            c,
            Seq::empty(),
            (#[trigger] ps[i]).reads(),
        ) by {
            if i < some.len() {
                assert(some[i] == ps[i]);
            }
        }
    }
}

/// What one look found.
proof fn lemma_look(c: Config, p: Probe)
    requires
        p.bdf.wf(),
        answered(c, Seq::empty(), p.reads()),
    ensures
        p.present() <==> is_there(c, p.bdf),
        p.present() ==> described(c, p.bdf, p.info()),
        p.leads_on() <==> p.bdf.func == 0 && has_more(c, p.bdf),
{
    let r = p.reads();
    assert(r[0] == pcie::word_read(p.bdf, 0, p.words[0]));
    assert(r[0] == Access::Read(config_at(p.bdf, 0), p.words[0]));
    if p.present() {
        assert(r[1] == Access::Read(config_at(p.bdf, 0), p.words[1]));
        assert(r[2] == Access::Read(config_at(p.bdf, 0), p.words[2]));
        assert(r[3] == Access::Read(config_at(p.bdf, 0x08), p.words[3]));
        assert(r[4] == Access::Read(config_at(p.bdf, 0x08), p.words[4]));
        assert(r[5] == Access::Read(config_at(p.bdf, 0x0C), p.words[5]));
        if p.bdf.func == 0 {
            assert(r[6] == Access::Read(config_at(p.bdf, 0x0C), p.words[6]));
            lemma_flag(p.words[6]);
        }
        lemma_layout(p.words[5]);
    }
}

proof fn lemma_flag(w: u32)
    ensures
        w as int / 0x1_0000 % 0x100 >= 0x80 <==> w as int / 0x80_0000 % 2 == 1,
{
    let x = w as int;
    assert(x / 0x80_0000 == x / 0x1_0000 / 0x80);
}

proof fn lemma_layout(w: u32)
    ensures
        w as int / 0x1_0000 % 0x100 % 0x80 == w as int / 0x1_0000 % 0x80,
{
}

/// What was found is what the looks found, as long as there is room.
proof fn lemma_found(ps: Seq<Probe>, i: int)
    requires
        pcie::found(ps).len() < 16,
        0 <= i < ps.len(),
        ps[i].present(),
    ensures
        pcie::found(ps).contains(ps[i].info()),
    decreases ps.len(),
{
    let some = ps.drop_last();
    let f = pcie::found(some);
    if i == ps.len() - 1 {
        assert(pcie::found(ps).last() == ps[i].info());
    } else {
        lemma_found(some, i);
        let k = choose|k: int| 0 <= k < f.len() && f[k] == ps[i].info();
        assert(pcie::found(ps)[k] == f[k]);
    }
}

proof fn lemma_only_found(ps: Seq<Probe>, k: int) -> (i: int)
    requires
        0 <= k < pcie::found(ps).len(),
    ensures
        0 <= i < ps.len(),
        ps[i].present(),
        pcie::found(ps)[k] == ps[i].info(),
    decreases ps.len(),
{
    let some = ps.drop_last();
    if k < pcie::found(some).len() {
        let i = lemma_only_found(some, k);
        assert(some[i] == ps[i]);
        i
    } else {
        ps.len() - 1
    }
}

/// A walk that has looked at function 0 of a device with more functions looks at each of
/// them.
proof fn lemma_further(ps: Seq<Probe>, max_bus: u8, i: int, f: u8) -> (j: int)
    requires
        pcie::in_order(ps, max_bus),
        pcie::next_probe(ps, max_bus) is None,
        pcie::found(ps).len() < 16,
        0 <= i < ps.len(),
        ps[i].leads_on(),
        ps[i].bdf.func == 0,
        f < 8,
    ensures
        0 <= j < ps.len(),
        ps[j].bdf == (Bdf { func: f, ..ps[i].bdf }),
    decreases f,
{
    if f == 0 {
        i
    } else {
        let j = lemma_further(ps, max_bus, i, (f - 1) as u8);
        pcie::lemma_walk_wf(ps, max_bus, j);
        if i < j {
            pcie::law_walk_goes_forward(ps, max_bus, i, j);
        } else if j < i {
            pcie::law_walk_goes_forward(ps, max_bus, j, i);
        }
        assert(f == 1 ==> j == i);
        assert(ps[j].next(max_bus) == Some(Bdf { func: f, ..ps[i].bdf }));
        if j == ps.len() - 1 {
            assert(ps.last() == ps[j]);
        } else {
            pcie::lemma_walk_step(ps, max_bus, j + 1);
        }
        j + 1
    }
}

/// An enumeration with room left has found exactly the functions that are there: function 0
/// of each device on the buses up to the last, and the others of those devices that say that
/// they have more. What it says of each is what the function's registers say.
pub proof fn law_enumeration_finds_what_is_there(
    c: Config,
    t0: Seq<Access>,
    t1: Seq<Access>,
    max_bus: u8,
    out: Seq<FunctionInfo>,
)
    requires
        pcie::enumerated(t0, t1, max_bus, out),
        answered(c, t0, t1),
        out.len() < 16,
    ensures
        forall|k: int|
            0 <= k < out.len() ==> (#[trigger] out[k]).bdf.wf() && out[k].bdf.bus <= max_bus
                && is_there(c, out[k].bdf) && described(c, out[k].bdf, out[k]) && (out[k].bdf.func
                > 0 ==> has_more(c, Bdf { func: 0, ..out[k].bdf })),
        forall|b: Bdf|
            #![trigger is_there(c, b)]
            b.wf() && b.bus <= max_bus && is_there(c, b) && (b.func == 0 || has_more(
                c,
                Bdf { func: 0, ..b },
            )) ==> exists|k: int| 0 <= k < out.len() && described(c, b, #[trigger] out[k]),
{
    let ps = choose|ps: Seq<Probe>| #[trigger] pcie::walked(t0, t1, max_bus, out, ps);
    lemma_looks(c, t0, ps);
    assert(ps.len() > 0);
    assert forall|k: int| 0 <= k < out.len() implies (#[trigger] out[k]).bdf.wf() && out[k].bdf.bus
        <= max_bus && is_there(c, out[k].bdf) && described(c, out[k].bdf, out[k]) && (
    out[k].bdf.func > 0 ==> has_more(c, Bdf { func: 0, ..out[k].bdf })) by {
        let i = lemma_only_found(ps, k);
        pcie::lemma_walk_wf(ps, max_bus, i);
        lemma_look(c, ps[i]);
        if ps[i].bdf.func > 0 {
            pcie::law_function_zero_leads(ps, max_bus, i);
            let j = choose|j: int|
                0 <= j < i && (#[trigger] ps[j]).bdf == (Bdf { func: 0, ..ps[i].bdf })
                    && ps[j].leads_on();
            lemma_look(c, ps[j]);
        }
    }
    assert forall|b: Bdf|
        #![trigger is_there(c, b)]
        b.wf() && b.bus <= max_bus && is_there(c, b) && (b.func == 0 || has_more(
            c,
            Bdf { func: 0, ..b },
        )) implies exists|k: int| 0 <= k < out.len() && described(c, b, #[trigger] out[k]) by {
        pcie::law_walk_covers_devices(ps, max_bus, b.bus, b.dev);
        let i = choose|i: int|
            0 <= i < ps.len() && (#[trigger] ps[i]).bdf == (Bdf { bus: b.bus, dev: b.dev, func: 0 });
        lemma_look(c, ps[i]);
        let j = if b.func == 0 {
            i
        } else {
            lemma_further(ps, max_bus, i, b.func)
        };
        assert(ps[j].bdf == b);
        lemma_look(c, ps[j]);
        lemma_found(ps, j);
        let k = choose|k: int| 0 <= k < out.len() && out[k] == ps[j].info();
        assert(described(c, b, out[k]));
    }
}

/// What the configuration registers say: the vendor in the lower half of the first word and the
/// device in the upper, the class in the highest byte of its word and the subclass below it,
/// and in the third byte of its word the layout of the header, with a bit at the top that says
/// that there are further functions.
pub proof fn law_register_fields(w: u32)
    ensures
        crate::pcie::vendor_in(w) == w as int % 0x1_0000,
        crate::pcie::device_in(w) == w as int / 0x1_0000,
        crate::pcie::class_in(w) == w as int / 0x100_0000,
        crate::pcie::subclass_in(w) == w as int / 0x1_0000 % 0x100,
        crate::pcie::header_in(w) == w as int / 0x1_0000 % 0x80,
        crate::pcie::multifunc_in(w) == (w as int / 0x80_0000 % 2 == 1),
        crate::pcie::present_in(w) == (w as int % 0x1_0000 != 0xFFFF),
{
}

/// A function's registers: 4096 bytes, found by its bus, its device, of which a bus has 32, and
/// its number, of which a device has eight. The first base address register is at 16.
pub proof fn law_configuration_space(bus: u8, dev: u8, func: u8, reg: int, idx: u8)
    requires
        dev < 32,
        func < 8,
        0 <= reg < 4096,
        idx < 6,
    ensures
        crate::pcie::ecam(crate::pcie::Bdf { bus, dev, func }, reg) == ((bus * 32 + dev) * 8
            + func) * 4096 + reg,
        crate::pcie::bar_offset(crate::pcie::Bdf { bus, dev, func }, idx) == ((bus * 32 + dev) * 8
            + func) * 4096 + 16 + 4 * idx,
{
}

} // verus!
