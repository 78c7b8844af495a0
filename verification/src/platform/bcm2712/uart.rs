//! The serial port. Received bytes are polled for.
use crate::mmio::Mmio;
use crate::platform::gic::Gic;
pub use crate::platform::pl011::{init, puts, UartWriter};
use vstd::prelude::*;

verus! {

/// Interrupt of the port. No device tree has confirmed it yet.
pub const UART_IRQ: u32 = 153;

/// Leaves the interrupt for received bytes off, at the port and at the interrupt
/// controller, as long as its number is not confirmed.
pub fn enable_rx_interrupt<M: Mmio, D: Mmio, R: Mmio>(
    uart: &mut UartWriter<M>,
    gic: &mut Gic<D, R>,
)
    ensures
        *final(uart) == *old(uart),
        *final(gic) == *old(gic),
{
}

} // verus!
