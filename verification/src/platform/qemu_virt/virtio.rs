//! The virtio transport: queues, discovery and device setup.
use vstd::prelude::*;

pub mod device;
pub mod queue;
pub mod regs;

pub use queue::{VirtqAvail, VirtqDesc, VirtqUsed, VirtqUsedElem, Virtqueue};

verus! {

/// "virt", least significant byte first.
pub const VIRTIO_MAGIC: u32 = 0x7472_6976;

pub const STATUS_ACKNOWLEDGE: u32 = 1;

pub const STATUS_DRIVER: u32 = 2;

pub const STATUS_DRIVER_OK: u32 = 4;

pub const STATUS_FEATURES_OK: u32 = 8;

pub const STATUS_FAILED: u32 = 128;

pub const DEVICE_ID_NET: u32 = 1;

pub const DEVICE_ID_BLOCK: u32 = 2;

pub const DEVICE_ID_ENTROPY: u32 = 4;

/// Transports that the machine has.
pub const NUM_TRANSPORTS: usize = 32;

/// Bytes between two transports.
pub const TRANSPORT_SIZE: usize = 0x200;

/// Address of the first transport.
pub const VIRTIO_BASE_PHYS: u64 = 0x0A00_0000;

/// Interrupt of the first transport.
pub const VIRTIO_IRQ_BASE: u32 = 48;

/// The buffer goes on in the next descriptor.
pub const VIRTQ_DESC_F_NEXT: u16 = 1;

/// The device writes the buffer.
pub const VIRTQ_DESC_F_WRITE: u16 = 2;

/// The largest queue that is supported.
pub const MAX_QUEUE_SIZE: usize = 128;

} // verus!
