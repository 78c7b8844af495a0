//! The interrupt controller.
pub use crate::platform::gic::{init_distributor, init_redistributor, Gic, IRQ_SPURIOUS};
