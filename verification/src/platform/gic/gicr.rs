//! Registers of the redistributor.
use vstd::prelude::*;

verus! {

pub const CTLR: usize = 0x0000;

pub const WAKER: usize = 0x0014;

pub const IGROUPR0: usize = 0x10080;

pub const ISENABLER0: usize = 0x10100;

pub const ICENABLER0: usize = 0x10180;

pub const IPRIORITYR: usize = 0x10400;

pub const WAKER_PROCESSOR_SLEEP: u32 = 0x2;

pub const WAKER_CHILDREN_ASLEEP: u32 = 0x4;

} // verus!
