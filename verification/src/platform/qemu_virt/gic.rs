//! The interrupt controller of the machine.
pub use crate::platform::gic::{init_distributor, init_redistributor, Gic, IRQ_SPURIOUS};
use vstd::prelude::*;

verus! {

/// Address of the distributor.
pub const GICD_PHYS: u64 = 0x0800_0000;

/// Address of the redistributor.
pub const GICR_PHYS: u64 = 0x080A_0000;

} // verus!
