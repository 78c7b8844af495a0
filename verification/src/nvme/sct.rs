//! Status code types.
use vstd::prelude::*;

verus! {

pub const GENERIC: u8 = 0x0;

pub const COMMAND_SPECIFIC: u8 = 0x1;

pub const MEDIA_DATA_ERROR: u8 = 0x2;

pub const PATH: u8 = 0x3;

pub const VENDOR_SPECIFIC: u8 = 0x7;

} // verus!
