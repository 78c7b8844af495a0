//! The BCM2712 of the Raspberry Pi 5.
use crate::arch::aarch64::boot::fdt::MmioAddrs;
use vstd::prelude::*;

pub mod fb;
pub mod gic;
pub mod mailbox;
pub mod pcie_brcm;
pub mod sdhci_brcm;
pub mod timer;
pub mod uart;

verus! {

/// Address of the serial port where the device tree names none.
pub const UART0_BASE: u64 = 0x10_7D00_1000;

/// Address of the interrupt distributor where the device tree names none.
pub const GICD_BASE: u64 = 0x10_7FFF_9000;

/// Address of the interrupt redistributor where the device tree names none.
pub const GICR_BASE: u64 = 0x10_7FFD_0000;

/// Where the devices are that the start needs, and what is said about them.
#[derive(Clone, Copy)]
pub struct Devices {
    pub uart: u64,
    pub gicd: u64,
    pub gicr: u64,
    pub uart_message: &'static str,
    pub gic_message: &'static str,
}

/// `a`, where there is one.
pub open spec fn or_default(a: Option<u64>, d: u64) -> u64 {
    match a {
        Some(x) => x,
        None => d,
    }
}

/// The devices that a device tree names; the usual addresses for the others.
pub fn find_devices(mmio: &MmioAddrs) -> (r: Devices)
    ensures
        r.uart == or_default(mmio.uart0_phys, UART0_BASE),
        r.gicd == or_default(mmio.gicd_phys, GICD_BASE),
        r.gicr == or_default(mmio.gicr_phys, GICR_BASE),
        r.uart_message@ == (if mmio.uart0_phys is Some {
            "UART: address from FDT\n"@
        } else {
            "UART: address from default (FDT not found)\n"@
        }),
        r.gic_message@ == (if mmio.gicd_phys is Some {
            "GIC: initialized (address from FDT)\n"@
        } else {
            "GIC: initialized (address from default)\n"@
        }),
{
    Devices {
        uart: match mmio.uart0_phys {
            Some(x) => x,
            None => UART0_BASE,
        },
        gicd: match mmio.gicd_phys {
            Some(x) => x,
            None => GICD_BASE,
        },
        gicr: match mmio.gicr_phys {
            Some(x) => x,
            None => GICR_BASE,
        },
        uart_message: match mmio.uart0_phys {
            Some(_) => "UART: address from FDT\n",
            None => "UART: address from default (FDT not found)\n",
        },
        gic_message: match mmio.gicd_phys {
            Some(_) => "GIC: initialized (address from FDT)\n",
            None => "GIC: initialized (address from default)\n",
        },
    }
}

/// A hexadecimal digit.
pub open spec fn hex_digit(n: int) -> u8 {
    if n < 10 {
        (0x30 + n) as u8
    } else {
        (0x61 + n - 10) as u8
    }
}

/// A number as eight hexadecimal digits after `0x`.
pub open spec fn hex_text(n: u32) -> Seq<u8> {
    let n = n as int;
    seq![
        0x30u8,
        0x78u8,
        hex_digit(n / 0x1000_0000),
        hex_digit(n / 0x100_0000 % 16),
        hex_digit(n / 0x10_0000 % 16),
        hex_digit(n / 0x1_0000 % 16),
        hex_digit(n / 0x1000 % 16),
        hex_digit(n / 0x100 % 16),
        hex_digit(n / 0x10 % 16),
        hex_digit(n % 16),
    ]
}

/// One digit.
fn hex_nibble(n: u32) -> (r: u8)
    requires
        n < 16,
    ensures
        r == hex_digit(n as int),
{
    if n < 10 {
        0x30 + n as u8
    } else {
        0x61 + (n - 10) as u8
    }
}

/// Writes a number as eight hexadecimal digits after `0x`.
pub fn hex_u32(n: u32) -> (r: Vec<u8>)
    ensures
        r@ == hex_text(n),
{
    let mut r: Vec<u8> = Vec::new();
    r.push(0x30);
    r.push(0x78);
    r.push(hex_nibble(n / 0x1000_0000));
    r.push(hex_nibble(n / 0x100_0000 % 16));
    r.push(hex_nibble(n / 0x10_0000 % 16));
    r.push(hex_nibble(n / 0x1_0000 % 16));
    r.push(hex_nibble(n / 0x1000 % 16));
    r.push(hex_nibble(n / 0x100 % 16));
    r.push(hex_nibble(n / 0x10 % 16));
    r.push(hex_nibble(n % 16));
    assert(r@ =~= hex_text(n));
    r
}

/// A number in decimal, without leading zeros.
pub open spec fn decimal(n: nat) -> Seq<u8>
    decreases n,
{
    if n < 10 {
        seq![(0x30 + n) as u8]
    } else {
        decimal(n / 10).push((0x30 + n % 10) as u8)
    }
}

/// The number that decimal digits say.
pub open spec fn decimal_value(s: Seq<u8>) -> int
    decreases s.len(),
{
    if s.len() == 0 {
        0
    } else {
        decimal_value(s.drop_last()) * 10 + (s.last() - 0x30)
    }
}

/// A number that was written in decimal is read back.
pub proof fn law_decimal_reads_back(n: nat)
    ensures
        decimal_value(decimal(n)) == n,
        decimal(n).len() > 0,
        n >= 10 ==> decimal(n)[0] != 0x30,
    decreases n,
{
    if n < 10 {
        let s = decimal(n);
        assert(s.drop_last() =~= Seq::<u8>::empty());
        assert(decimal_value(s.drop_last()) == 0);
    } else {
        law_decimal_reads_back(n / 10);
        assert(decimal(n).drop_last() =~= decimal(n / 10));
        if n / 10 < 10 {
            assert(decimal(n / 10)[0] == 0x30 + n / 10);
        }
    }
}

/// Writes a number in decimal.
pub fn dec_u32(n: u32) -> (r: Vec<u8>)
    ensures
        r@ == decimal(n as nat),
    decreases n,
{
    if n < 10 {
        let mut r: Vec<u8> = Vec::new();
        r.push(0x30 + n as u8);
        assert(r@ =~= decimal(n as nat));
        r
    } else {
        let mut r: Vec<u8> = dec_u32(n / 10);
        r.push(0x30 + (n % 10) as u8);
        r
    }
}

/// What a hexadecimal digit says.
pub open spec fn hex_value(c: u8) -> int {
    if '0' as u8 <= c <= '9' as u8 {
        c - '0' as u8
    } else {
        c - 'a' as u8 + 10
    }
}

/// A number that was written in hexadecimal is read back from its eight digits, the first of
/// which counts most.
pub proof fn law_hexadecimal_reads_back(n: u32)
    ensures
        ({
            let t = hex_text(n);
            &&& t.len() == 10
            &&& t[0] == '0' as u8
            &&& t[1] == 'x' as u8
            &&& n == ((((((hex_value(t[2]) * 16 + hex_value(t[3])) * 16 + hex_value(t[4])) * 16
                + hex_value(t[5])) * 16 + hex_value(t[6])) * 16 + hex_value(t[7])) * 16
                + hex_value(t[8])) * 16 + hex_value(t[9])
        }),
{
    let m = n as int;
    lemma_hex_digit(m / 0x1000_0000);
    lemma_hex_digit(m / 0x100_0000 % 16);
    lemma_hex_digit(m / 0x10_0000 % 16);
    lemma_hex_digit(m / 0x1_0000 % 16);
    lemma_hex_digit(m / 0x1000 % 16);
    lemma_hex_digit(m / 0x100 % 16);
    lemma_hex_digit(m / 0x10 % 16);
    lemma_hex_digit(m % 16);
    assert(m / 0x100 == m / 0x10 / 16);
    assert(m / 0x1000 == m / 0x100 / 16);
    assert(m / 0x1_0000 == m / 0x1000 / 16);
    assert(m / 0x10_0000 == m / 0x1_0000 / 16);
    assert(m / 0x100_0000 == m / 0x10_0000 / 16);
    assert(m / 0x1000_0000 == m / 0x100_0000 / 16);
}

/// A digit is read back.
proof fn lemma_hex_digit(n: int)
    requires
        0 <= n < 16,
    ensures
        hex_value(hex_digit(n)) == n,
{
}

} // verus!
