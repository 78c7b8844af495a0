//! Bits of the present-state register.
use vstd::prelude::*;

verus! {

pub const CMD_INHIBIT: u32 = 0x1;

pub const CMD_INHIBIT_DAT: u32 = 0x2;

pub const BUF_WRITE_ENABLE: u32 = 0x400;

pub const BUF_READ_ENABLE: u32 = 0x800;

pub const CARD_INSERTED: u32 = 0x1_0000;

} // verus!
