//! Offsets of configuration registers.
use vstd::prelude::*;

verus! {

pub const VENDOR_ID: u16 = 0x00;

pub const DEVICE_ID: u16 = 0x02;

pub const COMMAND: u16 = 0x04;

pub const STATUS: u16 = 0x06;

pub const REVISION_ID: u16 = 0x08;

pub const CLASS_CODE: u16 = 0x09;

pub const HEADER_TYPE: u16 = 0x0E;

pub const BAR0: u16 = 0x10;

pub const BAR1: u16 = 0x14;

pub const BAR2: u16 = 0x18;

pub const BAR3: u16 = 0x1C;

pub const BAR4: u16 = 0x20;

pub const BAR5: u16 = 0x24;

pub const CAPABILITIES_PTR: u16 = 0x34;

pub const PRIMARY_BUS: u16 = 0x18;

pub const SECONDARY_BUS: u16 = 0x19;

pub const SUBORDINATE_BUS: u16 = 0x1A;

} // verus!
