//! Offsets of the host controller's registers.
use vstd::prelude::*;

verus! {

pub const SDMA_ADDR: usize = 0x00;

pub const BLOCK_SIZE: usize = 0x04;

pub const BLOCK_COUNT: usize = 0x06;

pub const ARGUMENT: usize = 0x08;

pub const TRANSFER_MODE: usize = 0x0C;

pub const COMMAND: usize = 0x0E;

pub const RESPONSE0: usize = 0x10;

pub const RESPONSE1: usize = 0x14;

pub const RESPONSE2: usize = 0x18;

pub const RESPONSE3: usize = 0x1C;

pub const BUFFER_DATA_PORT: usize = 0x20;

pub const PRESENT_STATE: usize = 0x24;

pub const HOST_CONTROL_1: usize = 0x28;

pub const POWER_CONTROL: usize = 0x29;

pub const CLOCK_CONTROL: usize = 0x2C;

pub const TIMEOUT_CONTROL: usize = 0x2E;

pub const SOFTWARE_RESET: usize = 0x2F;

pub const INT_STATUS: usize = 0x30;

pub const INT_STATUS_ENABLE: usize = 0x34;

pub const SIGNAL_ENABLE: usize = 0x38;

pub const CAPABILITIES: usize = 0x40;

pub const HOST_VERSION: usize = 0xFE;

} // verus!
