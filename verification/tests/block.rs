use std::cell::RefCell;

use beetos_kernel::block::{
    BlockDevice, BlockError, MemBlockDevice, NvmeBlockDevice, SdBlockDevice,
};
use beetos_kernel::mmio::{Mmio, Trace};
use beetos_kernel::nvme::{
    admin_opc, cid_of, cns, nvm_opc, opcode_of, sc_generic, Cqe, ExchangeLog, Sqe, Transport,
};
use beetos_kernel::sdhci::{CardInfo, Csd, Host};

fn round_trip<D: BlockDevice>(dev: &mut D) {
    let bs = dev.block_size() as usize;
    let mut payload = vec![0u8; bs];
    for i in 0..bs {
        payload[i] = ((i * 13 + 7) & 0xFF) as u8;
    }
    dev.write_blocks(2, &payload).expect("write");
    let mut back = vec![0u8; bs];
    dev.read_blocks(2, &mut back).expect("read");
    assert_eq!(payload, back);
}

#[test]
fn mem_block_device_round_trip() {
    let mut d = MemBlockDevice::new(512, 16);
    assert_eq!(d.block_size(), 512);
    assert_eq!(d.capacity_blocks(), 16);
    assert_eq!(d.capacity_bytes(), 16 * 512);
    round_trip(&mut d);
}

#[test]
fn mem_block_device_rejects_misaligned_buf() {
    let mut d = MemBlockDevice::new(512, 4);
    let mut bad = [0u8; 100];
    assert_eq!(d.read_blocks(0, &mut bad), Err(BlockError::BadBuffer));
    let bad_w = [0u8; 100];
    assert_eq!(d.write_blocks(0, &bad_w), Err(BlockError::BadBuffer));
}

#[test]
fn mem_block_device_rejects_out_of_range() {
    let mut d = MemBlockDevice::new(512, 2);
    let mut buf = [0u8; 512];
    assert_eq!(d.read_blocks(99, &mut buf), Err(BlockError::OutOfRange));
    assert_eq!(d.write_blocks(99, &buf), Err(BlockError::OutOfRange));
}

#[test]
fn mem_block_device_writes_nothing_else() {
    let mut d = MemBlockDevice::new(512, 4);
    d.write_blocks(1, &[0x55; 1024]).unwrap();
    assert!(d.as_bytes()[..512].iter().all(|&b| b == 0));
    assert!(d.as_bytes()[512..1536].iter().all(|&b| b == 0x55));
    assert!(d.as_bytes()[1536..].iter().all(|&b| b == 0));
    assert_eq!(d.read_blocks(3, &mut [0u8; 1024]), Err(BlockError::OutOfRange));
    assert_eq!(d.read_blocks(u64::MAX, &mut [0u8; 512]), Err(BlockError::OutOfRange));
}

struct SimNvme {
    ns: Vec<u8>,
    block_size: u32,
    sq_head: RefCell<u16>,
    answer: Option<u8>,
}

impl SimNvme {
    fn new(bs: u32, n: u64) -> Self {
        Self {
            ns: vec![0u8; (bs as u64 * n) as usize],
            block_size: bs,
            sq_head: RefCell::new(0),
            answer: None,
        }
    }
    fn cqe(&self, sqe: &Sqe, sc: u8) -> Cqe {
        let mut h = self.sq_head.borrow_mut();
        *h = h.wrapping_add(1);
        Cqe {
            dw0: 0,
            dw1: 0,
            sq_head_sqid: *h as u32,
            cid_phase_status: (cid_of(sqe.cdw0) as u32) | (1 << 16) | ((sc as u32) << 17),
        }
    }
}

impl Transport for SimNvme {
    fn log(&self) -> ExchangeLog {
        unreachable!()
    }
    fn submit(&mut self, sqe: &Sqe, data: &mut [u8]) -> Cqe {
        if let Some(sc) = self.answer {
            return self.cqe(sqe, sc);
        }
        match opcode_of(sqe.cdw0) {
            op if op == admin_opc::IDENTIFY => {
                if data.len() < 4096 {
                    return self.cqe(sqe, sc_generic::INVALID_FIELD);
                }
                for b in data.iter_mut() {
                    *b = 0;
                }
                if (sqe.cdw10 & 0xFF) as u8 == cns::IDENTIFY_NAMESPACE {
                    let n = (self.ns.len() / self.block_size as usize) as u64;
                    data[0..8].copy_from_slice(&n.to_le_bytes());
                    data[8..16].copy_from_slice(&n.to_le_bytes());
                    let exp = self.block_size.trailing_zeros() as u8;
                    data[128 + 2] = exp;
                }
                self.cqe(sqe, sc_generic::SUCCESS)
            }
            op if op == nvm_opc::READ => {
                let slba = sqe.cdw10 as u64 | ((sqe.cdw11 as u64) << 32);
                let n = (sqe.cdw12 & 0xFFFF) as u64 + 1;
                let off = (slba * self.block_size as u64) as usize;
                let len = (n * self.block_size as u64) as usize;
                if off + len > self.ns.len() {
                    return self.cqe(sqe, sc_generic::LBA_OUT_OF_RANGE);
                }
                data[..len].copy_from_slice(&self.ns[off..off + len]);
                self.cqe(sqe, sc_generic::SUCCESS)
            }
            op if op == nvm_opc::WRITE => {
                let slba = sqe.cdw10 as u64 | ((sqe.cdw11 as u64) << 32);
                let n = (sqe.cdw12 & 0xFFFF) as u64 + 1;
                let off = (slba * self.block_size as u64) as usize;
                let len = (n * self.block_size as u64) as usize;
                if off + len > self.ns.len() {
                    return self.cqe(sqe, sc_generic::LBA_OUT_OF_RANGE);
                }
                self.ns[off..off + len].copy_from_slice(&data[..len]);
                self.cqe(sqe, sc_generic::SUCCESS)
            }
            _ => self.cqe(sqe, sc_generic::INVALID_COMMAND_OPCODE),
        }
    }
}

#[test]
fn nvme_block_device_through_simulator_round_trip() {
    let sim = SimNvme::new(512, 32);
    let mut dev = match NvmeBlockDevice::new(sim, 1) {
        Ok(d) => d,
        Err(_) => panic!("identify"),
    };
    assert_eq!(dev.block_size(), 512);
    assert_eq!(dev.capacity_blocks(), 32);
    round_trip(&mut dev);
}

#[test]
fn nvme_block_device_propagates_lba_out_of_range() {
    let sim = SimNvme::new(512, 4);
    let mut dev = match NvmeBlockDevice::new(sim, 1) {
        Ok(d) => d,
        Err(_) => panic!("identify"),
    };
    let mut buf = [0u8; 512];
    assert_eq!(dev.read_blocks(99, &mut buf), Err(BlockError::OutOfRange));
}

#[test]
fn nvme_block_device_reports_a_failed_command() {
    let mut sim = SimNvme::new(512, 4);
    sim.answer = Some(sc_generic::INTERNAL_ERROR);
    assert!(matches!(NvmeBlockDevice::new(sim, 1), Err(BlockError::Io)));
}

#[test]
fn nvme_block_device_splits_long_transfers() {
    let sim = SimNvme::new(1, 0x1_0010);
    let mut dev = match NvmeBlockDevice::new(sim, 1) {
        Ok(d) => d,
        Err(_) => panic!("identify"),
    };
    let data: Vec<u8> = (0..0x1_0010u32).map(|i| (i % 251) as u8).collect();
    dev.write_blocks(0, &data).unwrap();
    let mut back = vec![0u8; data.len()];
    dev.read_blocks(0, &mut back).unwrap();
    assert_eq!(data, back);
}

struct MinimalSdhciMmio;

impl Mmio for MinimalSdhciMmio {
    fn trace(&self) -> Trace {
        unreachable!()
    }
    fn read32(&mut self, _: usize) -> u32 {
        0
    }
    fn write32(&mut self, _: usize, _: u32) {}
}

fn fake_card(block_size: u32, n_blocks: u64) -> CardInfo {
    CardInfo {
        rca: 0,
        csd: Csd {
            structure_version: 1,
            capacity_bytes: block_size as u64 * n_blocks,
            block_len_bytes: block_size,
            read_bl_partial: false,
            write_bl_partial: false,
        },
        blocks: n_blocks,
    }
}

#[test]
fn sd_block_device_reports_card_geometry() {
    let host = Host::new(MinimalSdhciMmio);
    let card = fake_card(512, 4096);
    let dev = SdBlockDevice::new(host, card);
    assert_eq!(dev.block_size(), 512);
    assert_eq!(dev.capacity_blocks(), 4096);
    assert_eq!(dev.capacity_bytes(), 512 * 4096);
}

#[test]
fn sd_block_device_rejects_misaligned_and_out_of_range() {
    let host = Host { mmio: MinimalSdhciMmio, poll_budget: 0 };
    let card = fake_card(512, 4);
    let mut dev = SdBlockDevice::new(host, card);

    let mut bad = [0u8; 100];
    assert_eq!(dev.read_blocks(0, &mut bad), Err(BlockError::BadBuffer));
    let bad_w = [0u8; 100];
    assert_eq!(dev.write_blocks(0, &bad_w), Err(BlockError::BadBuffer));

    let mut buf = [0u8; 512];
    assert_eq!(dev.read_blocks(99, &mut buf), Err(BlockError::OutOfRange));
    assert_eq!(dev.write_blocks(99, &buf), Err(BlockError::OutOfRange));
}

#[test]
fn sd_block_device_with_other_blocks_refuses_as_well() {
    let host = Host { mmio: MinimalSdhciMmio, poll_budget: 0 };
    let mut dev = SdBlockDevice::new(host, fake_card(1024, 4));
    let mut half = [0u8; 512];
    assert_eq!(dev.read_blocks(0, &mut half), Err(BlockError::BadBuffer));
    assert_eq!(dev.write_blocks(4, &[0u8; 1024]), Err(BlockError::OutOfRange));
    assert_eq!(dev.read_blocks(1, &mut []), Ok(()));
    assert_eq!(dev.write_blocks(4, &[]), Ok(()));
}
