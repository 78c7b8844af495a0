//! Bits of the operating conditions register.
use vstd::prelude::*;

verus! {

/// The card has finished initialising.
pub const BUSY: u32 = 0x8000_0000;

/// High-capacity card.
pub const CCS: u32 = 0x4000_0000;

/// UHS-II card.
pub const UHS_II: u32 = 0x2000_0000;

/// Switching to 1.8 V accepted.
pub const S18A: u32 = 0x0100_0000;

/// 3.2 to 3.3 V.
pub const V32_33: u32 = 0x0010_0000;

/// 3.3 to 3.4 V.
pub const V33_34: u32 = 0x0020_0000;

/// The voltages that the host offers.
pub fn host_voltage_window() -> (r: u32)
    ensures
        r == V32_33 + V33_34,
{
    V32_33 + V33_34
}

} // verus!
