//! Bits of the software-reset register.
use vstd::prelude::*;

verus! {

pub const ALL: u8 = 0x1;

pub const CMD: u8 = 0x2;

pub const DAT: u8 = 0x4;

} // verus!
