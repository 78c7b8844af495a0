//! Verified core of the BeetOS kernel.
pub mod arch;
pub mod async_rt;
pub mod bits;
pub mod block;
pub mod bytes;
pub mod error;
pub mod font;
pub mod kfuture;
pub mod mem;
pub mod mmio;
pub mod nvme;
pub mod pcie;
pub mod platform;
pub mod ring;
pub mod sdhci;
