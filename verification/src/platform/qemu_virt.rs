//! The QEMU `virt` machine.
pub mod blk;
pub mod fb;
pub mod gic;
pub mod input;
pub mod net;
pub mod net_stack;
pub mod packet;
pub mod rng;
pub mod tcp;
pub mod timer;
pub mod uart;
pub mod virtio;
