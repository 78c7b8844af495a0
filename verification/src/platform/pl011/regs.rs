//! Registers of the port.
use vstd::prelude::*;

verus! {

pub const DR: usize = 0x00;

pub const FR: usize = 0x18;

pub const CR: usize = 0x30;

pub const IMSC: usize = 0x38;

pub const ICR: usize = 0x44;

pub const FR_TXFF: u32 = 0x20;

pub const FR_RXFE: u32 = 0x10;

pub const CR_UARTEN: u32 = 0x1;

pub const CR_TXEN: u32 = 0x100;

pub const CR_RXEN: u32 = 0x200;

pub const IMSC_RXIM: u32 = 0x10;

} // verus!
