//! The timer of the machine.
pub use crate::platform::arm_timer::{init, Timer, TIMER_IRQ};
