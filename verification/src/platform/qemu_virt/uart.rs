//! The serial port of the machine.
use crate::mmio;
use crate::mmio::{Access, Mmio};
use crate::platform::gic::{gicd, Gic};
use crate::platform::pl011::regs;
pub use crate::platform::pl011::{init, puts, UartWriter};
use vstd::arithmetic::power2::pow2;
use vstd::prelude::*;

verus! {

/// Address of the port.
pub const UART0_PHYS: u64 = 0x0900_0000;

/// Interrupt of the port.
pub const UART_IRQ: u32 = 33;

/// Enables the interrupt for received bytes, at the port and at the interrupt
/// controller.
pub fn enable_rx_interrupt<M: Mmio, D: Mmio, R: Mmio>(
    uart: &mut UartWriter<M>,
    gic: &mut Gic<D, R>,
)
    requires
        old(uart).port is Some,
    ensures
        final(uart).port is Some,
        ({
            let t0 = old(uart).port->0.trace();
            let t = final(uart).port->0.trace();
            let mask = mmio::value_of(t[t0.len() as int]);
            t == t0.push(Access::Read(regs::IMSC as int, mask)).push(
                Access::Write(regs::IMSC as int, mask | regs::IMSC_RXIM),
            )
        }),
        final(gic).gicr.trace() == old(gic).gicr.trace(),
        final(gic).gicd.trace() == old(gic).gicd.trace().push(
            Access::Write(gicd::ISENABLER + UART_IRQ / 32 * 4, pow2((UART_IRQ % 32) as nat) as u32),
        ),
{
    if let Some(p) = uart.port.take() {
        let mut p: M = p;
        let mask: u32 = p.read32(regs::IMSC);
        p.write32(regs::IMSC, mask | regs::IMSC_RXIM);
        uart.port = Some(p);
    }
    gic.enable_irq(UART_IRQ);
}

} // verus!
