//! Offsets of transport registers.
use vstd::prelude::*;

verus! {

pub const MAGIC_VALUE: usize = 0x000;

pub const VERSION: usize = 0x004;

pub const DEVICE_ID: usize = 0x008;

pub const VENDOR_ID: usize = 0x00C;

pub const HOST_FEATURES: usize = 0x010;

pub const HOST_FEATURES_SEL: usize = 0x014;

pub const GUEST_FEATURES: usize = 0x020;

pub const GUEST_FEATURES_SEL: usize = 0x024;

pub const GUEST_PAGE_SIZE: usize = 0x028;

pub const QUEUE_SEL: usize = 0x030;

pub const QUEUE_NUM_MAX: usize = 0x034;

pub const QUEUE_NUM: usize = 0x038;

pub const QUEUE_ALIGN: usize = 0x03C;

pub const QUEUE_PFN: usize = 0x040;

pub const QUEUE_NOTIFY: usize = 0x050;

pub const INTERRUPT_STATUS: usize = 0x060;

pub const INTERRUPT_ACK: usize = 0x064;

pub const STATUS: usize = 0x070;

pub const CONFIG: usize = 0x100;

} // verus!
