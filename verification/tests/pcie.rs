use std::cell::RefCell;
use std::collections::BTreeMap;
use std::rc::Rc;

use beetos_kernel::mmio::Trace;
use beetos_kernel::pcie::{
    cfg_reg, ecam_address, ecam_offset, enumerate, size_bar, Bdf, ConfigSpace, Enumeration,
    FunctionInfo, Mmio, HEADER_TYPE_BRIDGE, HEADER_TYPE_ENDPOINT, MAX_FUNCTIONS, VENDOR_ID_NONE,
    VID_BROADCOM,
};

/// Registers that were never set read as all ones.
#[derive(Clone)]
struct MockMmio {
    regs: Rc<RefCell<BTreeMap<usize, u32>>>,
    on_read: Rc<RefCell<Option<Box<dyn Fn(usize, u32) -> u32>>>>,
}

impl MockMmio {
    fn new() -> Self {
        Self { regs: Rc::new(RefCell::new(BTreeMap::new())), on_read: Rc::new(RefCell::new(None)) }
    }
    fn set(&self, offset: usize, value: u32) {
        self.regs.borrow_mut().insert(offset, value);
    }
    fn install_read_hook(&self, hook: impl Fn(usize, u32) -> u32 + 'static) {
        *self.on_read.borrow_mut() = Some(Box::new(hook));
    }
}

impl Mmio for MockMmio {
    fn trace(&self) -> Trace {
        unreachable!()
    }
    fn read32(&mut self, offset: usize) -> u32 {
        let raw = *self.regs.borrow().get(&offset).unwrap_or(&0xFFFF_FFFF);
        if let Some(hook) = &*self.on_read.borrow() {
            hook(offset, raw)
        } else {
            raw
        }
    }
    fn write32(&mut self, offset: usize, value: u32) {
        self.regs.borrow_mut().insert(offset, value);
    }
}

#[test]
fn ecam_offset_packs_bdf_and_register() {
    assert_eq!(ecam_offset(Bdf::new(0, 0, 0), 0x00), 0x000000);
    assert_eq!(ecam_offset(Bdf::new(0, 0, 1), 0x00), 0x001000);
    assert_eq!(ecam_offset(Bdf::new(0, 1, 0), 0x00), 0x008000);
    assert_eq!(ecam_offset(Bdf::new(1, 0, 0), 0x00), 0x100000);
    assert_eq!(ecam_offset(Bdf::new(1, 0, 0), 0x10), 0x100010);
}

#[test]
fn ecam_address_combines_base_and_offset() {
    assert_eq!(ecam_address(0x1000_400000, Bdf::new(1, 0, 0), 0x00), 0x1000_500000);
}

const DID_BCM2712_RC: u16 = 0x2712;
const DID_RP1: u16 = 0x0001;

fn populate_endpoint(m: &MockMmio, bdf: Bdf, vid: u16, did: u16, hdr_type: u8) {
    let base = ecam_offset(bdf, 0);
    m.set(base + 0x00, ((did as u32) << 16) | (vid as u32));
    m.set(base + 0x0C, (hdr_type as u32) << 16);
}

#[test]
fn config_space_reads_vendor_device_header_type() {
    let mut m = MockMmio::new();
    let bdf = Bdf::new(1, 0, 0);
    populate_endpoint(&m, bdf, VID_BROADCOM, DID_RP1, HEADER_TYPE_ENDPOINT);

    let mut cfg = ConfigSpace::new(&mut m, bdf);
    assert!(cfg.is_present());
    assert_eq!(cfg.vendor_id(), VID_BROADCOM);
    assert_eq!(cfg.device_id(), DID_RP1);
    assert_eq!(cfg.header_type(), HEADER_TYPE_ENDPOINT);
    assert!(!cfg.is_multifunc());
}

#[test]
fn config_space_detects_empty_slot() {
    let mut m = MockMmio::new();
    let mut cfg = ConfigSpace::new(&mut m, Bdf::new(0, 5, 0));
    assert!(!cfg.is_present());
    assert_eq!(cfg.vendor_id(), VENDOR_ID_NONE);
}

#[test]
fn config_space_detects_multifunction_flag() {
    let mut m = MockMmio::new();
    let bdf = Bdf::new(0, 0, 0);
    populate_endpoint(&m, bdf, 0x1234, 0xABCD, 0x80 | HEADER_TYPE_BRIDGE);
    let mut cfg = ConfigSpace::new(&mut m, bdf);
    assert!(cfg.is_present());
    assert_eq!(cfg.header_type(), HEADER_TYPE_BRIDGE);
    assert!(cfg.is_multifunc());
}

#[test]
fn config_space_reads_classes_and_bars() {
    let mut m = MockMmio::new();
    let bdf = Bdf::new(0, 2, 0);
    m.set(ecam_offset(bdf, 0x08), 0x0108_0200);
    m.set(ecam_offset(bdf, cfg_reg::BAR1), 0xABCD_0000);
    let mut cfg = ConfigSpace::new(&mut m, bdf);
    assert_eq!(cfg.class_code(), 0x01);
    assert_eq!(cfg.subclass(), 0x08);
    assert_eq!(cfg.bar(1), 0xABCD_0000);
    cfg.write_bar(1, 0x1234_0000);
    assert_eq!(cfg.bar(1), 0x1234_0000);
}

#[test]
fn size_bar_decodes_memory_window() {
    let mut m = MockMmio::new();
    let bdf = Bdf::new(1, 0, 0);
    populate_endpoint(&m, bdf, VID_BROADCOM, DID_RP1, HEADER_TYPE_ENDPOINT);

    let bar0_off = ecam_offset(bdf, cfg_reg::BAR0);
    m.set(bar0_off, 0xC000_0000);

    m.install_read_hook(move |off, raw| {
        if off == bar0_off && raw == 0xFFFF_FFFF {
            0xFF00_0000
        } else {
            raw
        }
    });

    let info = size_bar(&mut m, bdf, 0);
    assert_eq!(info.size, 16 * 1024 * 1024);
    assert!(!info.is_io);
    assert!(!info.prefetchable);
    assert_eq!(m.read32(bar0_off), 0xC000_0000);
}

#[test]
fn size_bar_decodes_prefetchable_memory() {
    let mut m = MockMmio::new();
    let bdf = Bdf::new(1, 0, 0);
    populate_endpoint(&m, bdf, VID_BROADCOM, DID_RP1, HEADER_TYPE_ENDPOINT);

    let bar2_off = ecam_offset(bdf, cfg_reg::BAR2);
    m.set(bar2_off, 0xD000_0008);
    m.install_read_hook(move |off, raw| {
        if off == bar2_off && raw == 0xFFFF_FFFF {
            0xF000_0000 | 0x8
        } else {
            raw
        }
    });

    let info = size_bar(&mut m, bdf, 2);
    assert_eq!(info.size, 256 * 1024 * 1024);
    assert!(info.prefetchable);
}

#[test]
fn enumerate_finds_rpi5_topology() {
    let mut m = MockMmio::new();
    populate_endpoint(&m, Bdf::new(0, 0, 0), VID_BROADCOM, DID_BCM2712_RC, HEADER_TYPE_BRIDGE);
    populate_endpoint(&m, Bdf::new(1, 0, 0), VID_BROADCOM, DID_RP1, HEADER_TYPE_ENDPOINT);

    let e = enumerate(&mut m, 1);
    assert_eq!(e.count, 2);

    let rp1 = e.find_by_vid_did(VID_BROADCOM, DID_RP1).expect("RP1 must show up");
    assert_eq!(rp1.bdf, Bdf::new(1, 0, 0));
    assert_eq!(rp1.header_type, HEADER_TYPE_ENDPOINT);

    let host = e.find_by_vid_did(VID_BROADCOM, DID_BCM2712_RC).expect("host bridge");
    assert_eq!(host.bdf, Bdf::new(0, 0, 0));
    assert_eq!(host.header_type, HEADER_TYPE_BRIDGE);
}

#[test]
fn enumerate_walks_multifunction_devices() {
    let mut m = MockMmio::new();
    populate_endpoint(&m, Bdf::new(0, 0, 0), 0xAAAA, 0x0001, 0x80 | HEADER_TYPE_ENDPOINT);
    populate_endpoint(&m, Bdf::new(0, 0, 1), 0xAAAA, 0x0002, HEADER_TYPE_ENDPOINT);
    populate_endpoint(&m, Bdf::new(0, 0, 3), 0xAAAA, 0x0004, HEADER_TYPE_ENDPOINT);

    let e = enumerate(&mut m, 0);
    assert_eq!(e.count, 3);
    assert!(e.find_by_vid_did(0xAAAA, 0x0001).is_some());
    assert!(e.find_by_vid_did(0xAAAA, 0x0002).is_some());
    assert!(e.find_by_vid_did(0xAAAA, 0x0004).is_some());
}

#[test]
fn enumerate_skips_function0_absent() {
    let mut m = MockMmio::new();
    populate_endpoint(&m, Bdf::new(0, 5, 1), 0xBBBB, 0x1234, HEADER_TYPE_ENDPOINT);
    let e = enumerate(&mut m, 0);
    assert_eq!(e.count, 0);
}

#[test]
fn enumerate_caps_at_max_functions() {
    let mut m = MockMmio::new();
    for d in 0..(MAX_FUNCTIONS as u8 + 4) {
        populate_endpoint(&m, Bdf::new(0, d, 0), 0xCCCC, d as u16, HEADER_TYPE_ENDPOINT);
    }
    let e = enumerate(&mut m, 0);
    assert_eq!(e.count, MAX_FUNCTIONS);
}

#[test]
fn enumeration_keeps_what_is_pushed() {
    let mut e = Enumeration::empty();
    assert_eq!(e.live().len(), 0);
    let f = FunctionInfo {
        bdf: Bdf::new(2, 3, 4),
        vendor_id: 0x1B36,
        device_id: 0x000D,
        class_code: 0x0C,
        subclass: 0x03,
        header_type: HEADER_TYPE_ENDPOINT,
    };
    for _ in 0..20 {
        e.push(f);
    }
    assert_eq!(e.live().len(), 16);
    assert_eq!(e.live()[0], f);
    assert!(e.find_by_vid_did(0x1B36, 0x000E).is_none());
}
