//! Registers of the distributor.
use vstd::prelude::*;

verus! {

pub const CTLR: usize = 0x0000;

pub const TYPER: usize = 0x0004;

pub const IGROUPR: usize = 0x0080;

pub const ISENABLER: usize = 0x0100;

pub const ICENABLER: usize = 0x0180;

pub const ICPENDR: usize = 0x0280;

pub const IPRIORITYR: usize = 0x0400;

pub const ITARGETSR: usize = 0x0800;

pub const ICFGR: usize = 0x0C00;

pub const CTLR_ENABLE_GRP0: u32 = 0x1;

pub const CTLR_ENABLE_GRP1_NS: u32 = 0x2;

pub const CTLR_ARE_S: u32 = 0x10;

} // verus!
