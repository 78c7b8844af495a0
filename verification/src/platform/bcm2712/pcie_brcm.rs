//! The PCIe bus behind which the southbridge is.
use crate::mmio::Mmio;
use crate::pcie;
use crate::pcie::Enumeration;
use vstd::prelude::*;

verus! {

/// Address of the controller.
pub const PCIE1_CTRL_BASE: u64 = 0x10_0012_0000;

/// Address of the configuration region.
pub const PCIE1_ECAM_BASE: u64 = 0x10_0040_0000;

/// Bytes of the configuration region.
pub const PCIE1_ECAM_SIZE: usize = 0x40_0000;

/// The host bridge.
pub const DID_BCM2712_RC: u16 = 0x2712;

/// The southbridge.
pub const DID_RP1: u16 = 0x0001;

/// Walks the first two buses. Where nothing answers, the link is down.
pub fn init<M: Mmio>(ecam: &mut M) -> (r: Result<Enumeration, &'static str>)
    ensures
        match r {
            Ok(e) => e.wf() && e@.len() > 0 && pcie::enumerated(
                old(ecam).trace(),
                final(ecam).trace(),
                1,
                e@,
            ),
            Err(m) => m@ == "PCIe link did not train (or firmware did not bring it up)"@
                && pcie::enumerated(old(ecam).trace(), final(ecam).trace(), 1, Seq::empty()),
        },
{
    let e: Enumeration = pcie::enumerate(ecam, 1);
    assert(e@.len() == e.count);
    if e.count == 0 {
        assert(e@ =~= Seq::empty());
        return Err("PCIe link did not train (or firmware did not bring it up)");
    }
    Ok(e)
}

} // verus!
