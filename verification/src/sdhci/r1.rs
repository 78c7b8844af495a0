//! Bits of the R1 card status (SD physical layer, section 4.10.1).
use vstd::prelude::*;

verus! {

pub const OUT_OF_RANGE: u32 = 0x8000_0000;

pub const ADDRESS_ERROR: u32 = 0x4000_0000;

pub const BLOCK_LEN_ERROR: u32 = 0x2000_0000;

pub const ERASE_SEQ_ERROR: u32 = 0x1000_0000;

pub const ERASE_PARAM: u32 = 0x0800_0000;

pub const WP_VIOLATION: u32 = 0x0400_0000;

pub const CARD_IS_LOCKED: u32 = 0x0200_0000;

pub const LOCK_UNLOCK_FAILED: u32 = 0x0100_0000;

pub const COM_CRC_ERROR: u32 = 0x0080_0000;

pub const ILLEGAL_COMMAND: u32 = 0x0040_0000;

pub const CARD_ECC_FAILED: u32 = 0x0020_0000;

pub const CC_ERROR: u32 = 0x0010_0000;

pub const ERROR: u32 = 0x0008_0000;

pub const READY_FOR_DATA: u32 = 0x0000_0100;

pub const APP_CMD: u32 = 0x0000_0020;

/// Bits that report an error of any kind.
pub const ANY_ERROR: u32 = 0xFDFF_E000;

/// The card's state, bits 12 to 9.
pub open spec fn state_of(r1: u32) -> int {
    (r1 / 512) as int % 16
}

/// The card's state, bits 12 to 9.
pub fn state(r1: u32) -> (r: u8)
    ensures
        r == state_of(r1),
{
    (r1 / 512 % 16) as u8
}

} // verus!
