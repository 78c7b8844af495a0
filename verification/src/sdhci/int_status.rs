//! Bits of the interrupt-status register.
use vstd::prelude::*;

verus! {

pub const CMD_COMPLETE: u32 = 0x1;

pub const TRANSFER_COMPLETE: u32 = 0x2;

pub const BUF_WRITE_READY: u32 = 0x10;

pub const BUF_READ_READY: u32 = 0x20;

pub const CARD_INSERTION: u32 = 0x40;

pub const CARD_REMOVAL: u32 = 0x80;

pub const ERROR: u32 = 0x8000;

pub const CMD_TIMEOUT: u32 = 0x1_0000;

pub const CMD_CRC_ERROR: u32 = 0x2_0000;

pub const CMD_END_BIT_ERROR: u32 = 0x4_0000;

pub const CMD_INDEX_ERROR: u32 = 0x8_0000;

pub const DATA_TIMEOUT: u32 = 0x10_0000;

pub const DATA_CRC_ERROR: u32 = 0x20_0000;

pub const DATA_END_BIT_ERROR: u32 = 0x40_0000;

/// All error bits.
pub const ERR_ANY: u32 = 0x7F_8000;

/// The bits that end the wait for a command: completion, or any error.
pub const CMD_ENDED: u32 = 0x7F_8001;

} // verus!
