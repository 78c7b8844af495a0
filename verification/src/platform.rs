//! Platform support.
pub mod apple_t8103;
pub mod arm_timer;
pub mod bcm2712;
pub mod desktop;
pub mod gic;
pub mod pl011;
pub mod qemu_virt;
pub mod rand;
