//! Bits of the transfer-mode register.
use vstd::prelude::*;

verus! {

pub const DMA_ENABLE: u16 = 0x1;

pub const BLOCK_COUNT_ENABLE: u16 = 0x2;

pub const AUTO_CMD12_ENABLE: u16 = 0x4;

pub const READ_DIR: u16 = 0x10;

pub const MULTI_BLOCK: u16 = 0x20;

} // verus!
