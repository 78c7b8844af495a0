use std::cell::RefCell;
use std::collections::BTreeMap;
use std::rc::Rc;

use beetos_kernel::arch::aarch64::boot::fdt::MmioAddrs;
use beetos_kernel::mmio::{Mmio, Trace};
use beetos_kernel::pcie::{ecam_offset, Bdf};
use beetos_kernel::platform::arm_timer;
use beetos_kernel::platform::bcm2712::fb::{self as bcm_fb, Screen};
use beetos_kernel::platform::bcm2712::mailbox::{
    alloc_framebuffer, framebuffer_request, request_message, submit_property, Exchange, FbInfo,
    MBOX_EMPTY, MBOX_FULL, MBOX_READ, MBOX_STATUS, MBOX_WRITE,
};
use beetos_kernel::platform::bcm2712::{dec_u32, find_devices, hex_u32, pcie_brcm, sdhci_brcm};
use beetos_kernel::platform::desktop::{Content, Draw, Paint};
use beetos_kernel::platform::gic::{
    cpu_interface_writes, init_distributor, init_redistributor, redistributor_awake,
    wake_redistributor, Gic, IccReg,
};
use beetos_kernel::platform::bcm2712::uart as pi_uart;
use beetos_kernel::platform::pl011;
use beetos_kernel::platform::qemu_virt::uart as virt_uart;
use beetos_kernel::platform::qemu_virt::fb::{
    boot_status_line, compose_desktop, directory_len, dma_request, dma_start_words,
    draw_boot_screen, find_ramfb_key, mark_phase_complete, populate_demo_desktop, ramfb_config,
    Compositor,
};
use beetos_kernel::sdhci::{reg, Host, HostError};

/// Registers that read what was set or written.
#[derive(Clone)]
struct Regs {
    regs: Rc<RefCell<BTreeMap<usize, u32>>>,
    writes: Rc<RefCell<Vec<(usize, u32)>>>,
}

impl Regs {
    fn new() -> Self {
        Regs {
            regs: Rc::new(RefCell::new(BTreeMap::new())),
            writes: Rc::new(RefCell::new(Vec::new())),
        }
    }
    fn set(&self, at: usize, v: u32) {
        self.regs.borrow_mut().insert(at, v);
    }
    fn written(&self, at: usize) -> Vec<u32> {
        self.writes.borrow().iter().filter(|w| w.0 == at).map(|w| w.1).collect()
    }
}

impl Mmio for Regs {
    fn trace(&self) -> Trace {
        unreachable!()
    }
    fn read32(&mut self, at: usize) -> u32 {
        *self.regs.borrow().get(&at).unwrap_or(&0)
    }
    fn write32(&mut self, at: usize, v: u32) {
        self.regs.borrow_mut().insert(at, v);
        self.writes.borrow_mut().push((at, v));
    }
}

#[test]
fn interrupt_lines_have_their_bits() {
    let (d, r) = (Regs::new(), Regs::new());
    let mut gic = Gic { gicd: d.clone(), gicr: r.clone() };
    gic.enable_irq(33);
    assert_eq!(d.written(0x104), vec![2]);
    gic.disable_irq(95);
    assert_eq!(d.written(0x188), vec![1 << 31]);
    gic.enable_irq(30);
    assert_eq!(r.written(0x1_0100), vec![1 << 30]);
}

#[test]
fn distributor_starts_quiet() {
    let mut d = Regs::new();
    d.set(4, 2);
    init_distributor(&mut d);
    assert_eq!(d.written(0x180 + 4), vec![0xFFFF_FFFF]);
    assert_eq!(d.written(0x180 + 8), vec![0xFFFF_FFFF]);
    assert!(!d.writes.borrow().iter().any(|w| w.0 == 0x180 + 12));
}

#[test]
fn redistributor_is_woken() {
    let mut r = Regs::new();
    r.set(0x14, 6);
    assert!(!redistributor_awake(&mut r));
    wake_redistributor(&mut r);
    assert_eq!(r.written(0x14), vec![4]);
    r.set(0x14, 0);
    assert!(redistributor_awake(&mut r));
    init_redistributor(&mut r);
    assert_eq!(r.written(0x1_0080), vec![0xFFFF_FFFF]);
}

#[test]
fn processor_interface_is_enabled() {
    let w = cpu_interface_writes(0x6);
    assert_eq!(w[0], (IccReg::Sre, 7));
    assert_eq!(w.last(), Some(&(IccReg::Igrpen1, 1)));
    assert_eq!(w.len(), 4);
}

#[test]
fn serial_port_sends_and_receives() {
    let port = Regs::new();
    let mut uart = pl011::init(port.clone());
    assert_eq!(pl011::puts("a\nb"), b"a\r\nb".to_vec());
    assert!(uart.try_putc(b'x'));
    assert_eq!(port.written(0), vec![b'x' as u32]);
    port.set(0x18, 0x20);
    assert!(!uart.try_putc(b'y'));
    port.set(0x18, 0x10);
    assert_eq!(uart.try_getc(), None);
    port.set(0x18, 0);
    port.set(0, 0x741);
    assert_eq!(uart.try_getc(), Some(0x41));
    uart.clear_rx_interrupt();
    assert_eq!(port.written(0x44).last(), Some(&0x10));
    let d = Regs::new();
    let mut gic = Gic { gicd: d.clone(), gicr: Regs::new() };
    port.set(0x38, 0x40);
    virt_uart::enable_rx_interrupt(&mut uart, &mut gic);
    assert_eq!(port.written(0x38), vec![0x50]);
    assert_eq!(d.written(0x104), vec![2]);
}

#[test]
fn serial_port_of_the_pi_is_polled() {
    let port = Regs::new();
    let mut uart = pi_uart::init(port.clone());
    let d = Regs::new();
    let mut gic = Gic { gicd: d.clone(), gicr: Regs::new() };
    pi_uart::enable_rx_interrupt(&mut uart, &mut gic);
    assert_eq!(port.written(0x38), Vec::<u32>::new());
    assert_eq!(d.written(0x110), Vec::<u32>::new());
    assert_eq!(pi_uart::UART_IRQ, 153);
}

#[test]
fn serial_port_that_was_not_set_up_drops_bytes() {
    let mut uart: pl011::UartWriter<Regs> = pl011::UartWriter { port: None };
    assert!(uart.try_putc(b'x'));
    assert_eq!(uart.try_getc(), None);
}

#[test]
fn timer_ticks_a_hundred_times_a_second() {
    let mut t = arm_timer::init(62_500_000);
    assert_eq!(t.frequency(), 62_500_000);
    assert_eq!(t.handle_tick(), (1, 625_000));
    assert_eq!(t.handle_tick(), (2, 625_000));
    assert_eq!(t.tick_count(), 2);
    assert_eq!(arm_timer::control_value(true, false), 1);
}

#[test]
fn framebuffer_key_is_found() {
    let mut dir = 2u32.to_be_bytes().to_vec();
    for (name, key) in [("etc/acpi", 0x20u16), ("etc/ramfb", 0x2B)] {
        dir.extend_from_slice(&28u32.to_be_bytes());
        dir.extend_from_slice(&key.to_be_bytes());
        dir.extend_from_slice(&[0, 0]);
        let mut n = name.as_bytes().to_vec();
        n.resize(56, 0);
        dir.extend_from_slice(&n);
    }
    assert_eq!(dir.len() as u64, directory_len(2));
    assert_eq!(find_ramfb_key(&dir), Some(0x2B));
    assert_eq!(find_ramfb_key(&[0, 0, 0, 0]), None);
}

#[test]
fn framebuffer_is_configured() {
    let c = ramfb_config();
    assert_eq!(c.len(), 28);
    assert_eq!(&c[8..12], b"42RX");
    assert_eq!(u32::from_be_bytes([c[16], c[17], c[18], c[19]]), 1280);
    let d = dma_request(0x2B, 28, 0x1234_5678_9ABC);
    assert_eq!(d.len(), 16);
    assert_eq!(&d[..8], &[0, 0x2B, 0, 0x18, 0, 0, 0, 28]);
    assert_eq!(dma_start_words(0x1234_5678_9ABC), (0x1234, 0x5678_9ABC));
}

#[test]
fn boot_screen_is_drawn() {
    let steps = draw_boot_screen();
    assert!(matches!(steps[0], Draw::Clear { .. }));
    assert!(steps.iter().any(|d| matches!(d, Draw::Text { .. })));
    let done = mark_phase_complete(2, "MMU");
    assert!(matches!(done[0], Draw::FillRect { rect, .. } if (rect.x, rect.y) == (508, 720)));
    assert!(matches!(done[1], Draw::Text { x: 536, y: 724, text: "MMU", .. }));
    let label = String::from("longer than its box");
    let done = mark_phase_complete(0, &label);
    assert!(matches!(done[1], Draw::Text { x: 288, .. }));
    let line = boot_status_line(3, "ready", Paint::White);
    assert!(line.iter().any(|d| matches!(d, Draw::Text { text: "ready", .. })));
    let msg = format!("{} of {}", 1, 2);
    let line = boot_status_line(-3, &msg, Paint::Pixel(0x0012_3456));
    assert!(matches!(line[0], Draw::FillRect { rect, .. } if (rect.x, rect.y) == (80, 166)));
    assert!(matches!(
        line[1],
        Draw::Text { x: 80, y: 166, text: "1 of 2", fg: Paint::Pixel(0x0012_3456), .. }
    ));
}

#[test]
fn desktop_windows_fit() {
    let d = populate_demo_desktop();
    assert!(!d.windows.is_empty());
    assert!(d.focus < d.windows.len());
    for w in &d.windows {
        assert!(w.rect.x >= 0 && w.rect.y >= 0);
        assert!(w.rect.x + w.rect.w <= 1280 && w.rect.y + w.rect.h <= 720);
    }
    assert!(d.windows.iter().any(|w| matches!(w.content, Content::Text(_))));
    assert_eq!(compose_desktop(true, 1234), Some((12, 123)));
    assert_eq!(compose_desktop(false, 1234), None);
}

#[test]
fn compositor_keeps_requests_and_keys() {
    let mut c = Compositor::new(true);
    assert!(c.is_fb_ready());
    assert_eq!(c.idle_compose_if_requested(), None);
    c.tick_recompose_if_due(7);
    assert_eq!(c.idle_compose_if_requested(), None);
    c.tick_recompose_if_due(10);
    assert_eq!(c.idle_compose_if_requested(), Some(true));
    assert!(c.compose_in_progress());
    c.request_compose();
    assert!(c.queue_key_during_compose(b'a'));
    assert!(c.queue_key_during_compose(b'b'));
    assert_eq!(c.end_compose(), b"ab".to_vec());
    assert!(!c.compose_in_progress());
    assert_eq!(c.idle_compose_if_requested(), Some(false));
}

#[test]
fn devices_of_the_board() {
    let none = MmioAddrs { uart0_phys: None, gicd_phys: None, gicr_phys: None };
    let d = find_devices(&none);
    assert_eq!(d.uart, 0x10_7D00_1000);
    assert_eq!(d.uart_message, "UART: address from default (FDT not found)\n");
    let some = MmioAddrs { uart0_phys: Some(1), gicd_phys: Some(2), gicr_phys: Some(3) };
    let d = find_devices(&some);
    assert_eq!((d.uart, d.gicd, d.gicr), (1, 2, 3));
    assert_eq!(d.gic_message, "GIC: initialized (address from FDT)\n");
}

#[test]
fn numbers_are_written() {
    assert_eq!(hex_u32(0x14E4), b"0x000014e4".to_vec());
    assert_eq!(dec_u32(0), b"0".to_vec());
    assert_eq!(dec_u32(1047), b"1047".to_vec());
}

#[test]
fn framebuffer_of_the_firmware() {
    let mut words = framebuffer_request(1920, 1080);
    assert_eq!(words.len(), 30);
    assert_eq!(words[0], 120);
    assert_eq!(&words[5..7], &[1920, 1080]);
    assert_eq!(alloc_framebuffer(&words, 1920, 1080), None);
    words[1] = 0x8000_0000;
    words[23] = 0xFE00_0000;
    words[24] = 8_294_400;
    words[28] = 7680;
    let fb = FbInfo {
        addr: 0x3E00_0000,
        size: 8_294_400,
        width: 1920,
        height: 1080,
        pitch: 7680,
        bpp: 32,
    };
    assert_eq!(alloc_framebuffer(&words, 1920, 1080), Some(fb));
    words[23] = 0xC000_0000;
    assert_eq!(alloc_framebuffer(&words, 1920, 1080), None);
    let mut screen = Screen { info: None };
    assert!(!screen.init(None));
    assert_eq!(screen.compose_desktop(100), None);
    assert!(screen.init(Some(fb)));
    assert!(screen.is_fb_ready());
    assert_eq!(screen.surface().stride, 1920);
    assert!(bcm_fb::populate_demo_desktop(false).is_none());
    assert_eq!(bcm_fb::populate_demo_desktop(screen.is_fb_ready()).unwrap().windows.len(), 7);
    assert!(screen.tick_recompose_if_due(20));
    assert!(!screen.tick_recompose_if_due(21));
}

#[test]
fn mailbox_exchange() {
    let m = Regs::new();
    let mut mbox = m.clone();
    assert_eq!(request_message(0x1000_0005), 0x1000_0008);
    m.set(MBOX_STATUS, MBOX_FULL);
    assert_eq!(submit_property(&mut mbox, Exchange::Sending, 0x18), Exchange::Sending);
    m.set(MBOX_STATUS, 0);
    assert_eq!(submit_property(&mut mbox, Exchange::Sending, 0x18), Exchange::Receiving);
    assert_eq!(m.written(MBOX_WRITE), vec![0x18]);
    m.set(MBOX_STATUS, MBOX_EMPTY);
    assert_eq!(submit_property(&mut mbox, Exchange::Receiving, 0x18), Exchange::Receiving);
    m.set(MBOX_STATUS, 0);
    m.set(MBOX_READ, 0x28);
    assert_eq!(submit_property(&mut mbox, Exchange::Receiving, 0x18), Exchange::Receiving);
    m.set(MBOX_READ, 0x18);
    assert_eq!(submit_property(&mut mbox, Exchange::Receiving, 0x18), Exchange::Done);
}

#[test]
fn bus_without_functions_is_down() {
    struct Empty;
    impl Mmio for Empty {
        fn trace(&self) -> Trace {
            unreachable!()
        }
        fn read32(&mut self, _: usize) -> u32 {
            0xFFFF_FFFF
        }
        fn write32(&mut self, _: usize, _: u32) {}
    }
    assert!(matches!(
        pcie_brcm::init(&mut Empty),
        Err("PCIe link did not train (or firmware did not bring it up)")
    ));
    struct Bridge;
    impl Mmio for Bridge {
        fn trace(&self) -> Trace {
            unreachable!()
        }
        fn read32(&mut self, at: usize) -> u32 {
            if at == ecam_offset(Bdf::new(0, 0, 0), 0) {
                0x2712_14E4
            } else if at < 0x1000 {
                0
            } else {
                0xFFFF_FFFF
            }
        }
        fn write32(&mut self, _: usize, _: u32) {}
    }
    match pcie_brcm::init(&mut Bridge) {
        Ok(e) => assert_eq!(e.count, 1),
        Err(m) => panic!("{}", m),
    }
}

/// A card slot with a card in it.
#[derive(Clone)]
struct Slot {
    regs: Regs,
    commands: Rc<RefCell<Vec<u32>>>,
    busy: Rc<RefCell<u32>>,
}

impl Mmio for Slot {
    fn trace(&self) -> Trace {
        unreachable!()
    }
    fn read32(&mut self, at: usize) -> u32 {
        match at {
            0x30 => 1,
            0x24 | 0x2C => 0,
            _ => self.regs.read32(at),
        }
    }
    fn write32(&mut self, at: usize, v: u32) {
        if at == reg::TRANSFER_MODE {
            let index = (v >> 24) & 0x3F;
            self.commands.borrow_mut().push(index);
            let mut answer = [0u32; 4];
            match index {
                8 => answer[0] = 0x1AA,
                41 => {
                    if *self.busy.borrow() == 0 {
                        answer[0] = 0xC010_0000;
                    } else {
                        *self.busy.borrow_mut() -= 1;
                    }
                }
                2 => answer = [0x0353_4453, 0x5530_3147, 0x10DE_ADBE, 0xEF01_2100],
                3 => answer[0] = 0x1234_0000,
                9 => answer = [1 << 30, 0, 0x0010_0000, 0],
                7 => answer[0] = 0x0000_0700,
                _ => {}
            }
            for i in 0..4 {
                self.regs.set(reg::RESPONSE0 + 4 * i, answer[i]);
            }
        }
    }
}

fn slot(busy: u32) -> Slot {
    Slot {
        regs: Regs::new(),
        commands: Rc::new(RefCell::new(Vec::new())),
        busy: Rc::new(RefCell::new(busy)),
    }
}

#[test]
fn card_is_brought_into_use() {
    let s = slot(1);
    let mut host = Host { mmio: s.clone(), poll_budget: 10 };
    let mut cid = None;
    match sdhci_brcm::init(&mut host, &mut cid) {
        Ok(card) => {
            assert_eq!(card.rca, 0x1234);
            assert_eq!(card.csd.capacity_bytes, 17 * 512 * 1024);
            assert_eq!(card.blocks, 17 * 1024);
        }
        Err(e) => panic!("{:?}", e),
    }
    assert_eq!(*s.commands.borrow(), vec![0, 8, 55, 41, 55, 41, 2, 3, 9, 7]);
    assert_eq!(cid.unwrap().manufacturer_id, 0x03);
}

#[test]
fn card_that_stays_busy_is_given_up() {
    let s = slot(1000);
    let mut host = Host { mmio: s.clone(), poll_budget: 10 };
    let mut cid = None;
    assert!(matches!(sdhci_brcm::init(&mut host, &mut cid), Err(HostError::BadResponse)));
    assert!(cid.is_none());
}
