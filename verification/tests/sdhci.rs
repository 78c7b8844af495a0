use std::cell::RefCell;
use std::collections::BTreeMap;
use std::rc::Rc;

use beetos_kernel::mmio::{Mmio, Trace};
use beetos_kernel::platform::bcm2712::sdhci_brcm;
use beetos_kernel::sdhci::{
    advance, classify_int_status, cmd, cmd_reg, crc16_ccitt, crc7, int_status,
    next_command, ocr, r1, reg, reset_bits, state, xfer_mode, CardState, Cid, Csd, Host,
    HostError, HostResponse, InitStep, ResponseType, SdCommand,
};

#[test]
fn sdhci_base_matches_bcm2712_dts() {
    assert_eq!(sdhci_brcm::SDHCI_PHYS, 0x107D_510000);
    assert!(sdhci_brcm::SDHCI_SIZE >= 4096);
}

#[test]
fn crc7_cmd0_canonical_vector() {
    assert_eq!(crc7(&[0x40, 0x00, 0x00, 0x00, 0x00]), 0x4A);
}

#[test]
fn crc7_is_self_consistent_across_buffer_splits() {
    let data: [u8; 7] = [0x48, 0x12, 0x34, 0x56, 0x78, 0x9A, 0xBC];
    assert_eq!(crc7(&data), crc7(&data));
    assert_ne!(crc7(&data), crc7(&data[..6]));
}

#[test]
fn crc7_encoded_frame_round_trips_through_helper() {
    for &cmd in &[cmd::GO_IDLE_STATE, cmd::SEND_IF_COND, cmd::READ_SINGLE_BLOCK] {
        let f = SdCommand::new(cmd, 0x1234_5678, ResponseType::R1).encode_frame();
        assert_eq!(f[5] >> 1, crc7(&f[..5]));
        assert_eq!(f[5] & 1, 1);
    }
}

#[test]
fn crc7_zero_input_is_zero() {
    assert_eq!(crc7(&[0u8; 8]), 0);
}

#[test]
fn crc7_of_a_message_with_its_own_crc_is_zero() {
    let data = [0x51, 0x00, 0x00, 0x12, 0x34];
    let mut sent = data.to_vec();
    sent.push(crc7(&data) << 1);
    assert_eq!(crc7(&sent), 0);
}

#[test]
fn crc16_ccitt_known_vector() {
    assert_eq!(crc16_ccitt(b"123456789"), 0x31C3);
}

#[test]
fn crc16_ccitt_zero_input_is_zero() {
    assert_eq!(crc16_ccitt(&[]), 0);
}

#[test]
fn encode_frame_cmd0_layout() {
    let f = SdCommand::new(cmd::GO_IDLE_STATE, 0, ResponseType::NoResponse).encode_frame();
    assert_eq!(f[0], 0x40);
    assert_eq!(&f[1..5], &[0, 0, 0, 0]);
    assert_eq!(f[5] & 0x01, 0x01);
    assert_eq!(f[5] >> 1, crc7(&f[..5]));
}

#[test]
fn encode_frame_cmd8_includes_arg() {
    let f = SdCommand::new(cmd::SEND_IF_COND, 0x0000_01AA, ResponseType::R7).encode_frame();
    assert_eq!(f[0], 0x48);
    assert_eq!(f[1], 0x00);
    assert_eq!(f[2], 0x00);
    assert_eq!(f[3], 0x01);
    assert_eq!(f[4], 0xAA);
}

#[test]
fn r1_state_extracted_from_bits_12_9() {
    let r = 4u32 << 9;
    assert_eq!(r1::state(r), 4);
    assert_eq!(CardState::from_r1(r), CardState::Tran);
}

#[test]
fn r1_error_bits_detected() {
    assert_ne!(r1::OUT_OF_RANGE & r1::ANY_ERROR, 0);
    assert_ne!(r1::CARD_ECC_FAILED & r1::ANY_ERROR, 0);
    assert_eq!(r1::APP_CMD & r1::ANY_ERROR, 0);
    assert_eq!(r1::READY_FOR_DATA & r1::ANY_ERROR, 0);
}

#[test]
fn cid_parse_extracts_well_known_fields() {
    let mut r2 = [0u32; 4];

    let set = |r2: &mut [u32; 4], lo: u32, hi: u32, v: u64| {
        for b in lo..=hi {
            let bit = ((v >> (hi - b)) & 1) as u32;
            let word = (b / 32) as usize;
            let bit_in_word = 31 - (b % 32);
            if bit != 0 {
                r2[word] |= 1 << bit_in_word;
            }
        }
    };

    set(&mut r2, 0, 7, 0x03);
    set(&mut r2, 8, 23, 0x5344);
    set(
        &mut r2,
        24,
        63,
        ((b'S' as u64) << 32)
            | ((b'U' as u64) << 24)
            | ((b'0' as u64) << 16)
            | ((b'1' as u64) << 8)
            | (b'G' as u64),
    );
    set(&mut r2, 64, 71, 0x10);
    set(&mut r2, 72, 103, 0xDEAD_BEEF);
    set(&mut r2, 104, 115, 0x121);

    let cid = Cid::parse(r2);
    assert_eq!(cid.manufacturer_id, 0x03);
    assert_eq!(cid.oem_application_id, 0x5344);
    assert_eq!(&cid.product_name, b"SU01G");
    assert_eq!(cid.product_revision, 0x10);
    assert_eq!(cid.serial, 0xDEAD_BEEF);
    assert_eq!(cid.manufacturing_date, 0x121);
}

#[test]
fn csd_v2_parses_capacity_in_512kb_units() {
    let mut r2 = [0u32; 4];
    r2[0] = 1 << 30;
    r2[2] = 0x0010_0000;

    let csd = Csd::parse(r2);
    assert_eq!(csd.structure_version, 1);
    assert_eq!(csd.block_len_bytes, 512);
    assert_eq!(csd.capacity_bytes, 17 * 512 * 1024);
    assert_eq!(csd.blocks_512(), 17 * 1024);
}

#[test]
fn init_state_machine_walks_v2_card_to_done() {
    let mut step = InitStep::GoIdle;

    assert_eq!(next_command(step).unwrap().cmd, cmd::GO_IDLE_STATE);
    step = advance(step, 0, [0; 4]);
    assert_eq!(step, InitStep::SendIfCond);

    assert_eq!(next_command(step).unwrap().cmd, cmd::SEND_IF_COND);
    step = advance(step, 0x0000_01AA, [0; 4]);
    assert_eq!(step, InitStep::SendOpCond { retries: 0, sdhc_capable: true });

    assert_eq!(next_command(step).unwrap().cmd, cmd::SD_SEND_OP_COND);
    step = advance(step, 0, [0; 4]);
    assert_eq!(step, InitStep::SendOpCond { retries: 1, sdhc_capable: true });

    step = advance(step, ocr::BUSY | ocr::CCS | ocr::V32_33, [0; 4]);
    assert_eq!(step, InitStep::AllSendCid);

    assert_eq!(next_command(step).unwrap().cmd, cmd::ALL_SEND_CID);
    step = advance(step, 0, [0; 4]);
    assert_eq!(step, InitStep::SendRelativeAddr);

    assert_eq!(next_command(step).unwrap().cmd, cmd::SEND_RELATIVE_ADDR);
    step = advance(step, 0x1234_0000, [0; 4]);
    assert_eq!(step, InitStep::SendCsd { rca: 0x1234 });

    assert_eq!(next_command(step).unwrap().cmd, cmd::SEND_CSD);
    let mut csd_r2 = [0u32; 4];
    csd_r2[0] = 1 << 30;
    csd_r2[2] = 0x0010_0000;
    step = advance(step, 0, csd_r2);
    assert_eq!(step, InitStep::SelectCard { rca: 0x1234 });

    let nxt = next_command(step).unwrap();
    assert_eq!(nxt.cmd, cmd::SELECT_CARD);
    assert_eq!(nxt.arg, 0x1234_0000);
    step = advance(step, 0, csd_r2);
    match step {
        InitStep::Done { rca, csd, .. } => {
            assert_eq!(rca, 0x1234);
            assert_eq!(csd.capacity_bytes, 17 * 512 * 1024);
        }
        other => panic!("expected Done, got {other:?}"),
    }
}

#[test]
fn init_state_machine_times_out_op_cond() {
    let mut step = InitStep::SendOpCond { retries: 64, sdhc_capable: true };
    step = advance(step, 0, [0; 4]);
    assert!(matches!(step, InitStep::Error(_)));
}

#[test]
fn init_select_card_propagates_errors() {
    let step = InitStep::SelectCard { rca: 1 };
    let after = advance(step, r1::ILLEGAL_COMMAND, [0; 4]);
    assert!(matches!(after, InitStep::Error(_)));
}

/// Registers that a test can watch, and answer for.
#[derive(Clone)]
struct MockMmio {
    regs: Rc<RefCell<BTreeMap<usize, u32>>>,
    on_read: Rc<RefCell<Option<Box<dyn Fn(usize) -> Option<u32>>>>>,
    writes: Rc<RefCell<Vec<(usize, u32)>>>,
}

impl MockMmio {
    fn new() -> Self {
        Self {
            regs: Rc::new(RefCell::new(BTreeMap::new())),
            on_read: Rc::new(RefCell::new(None)),
            writes: Rc::new(RefCell::new(Vec::new())),
        }
    }
    fn install_read_hook(&self, hook: impl Fn(usize) -> Option<u32> + 'static) {
        *self.on_read.borrow_mut() = Some(Box::new(hook));
    }
}

impl Mmio for MockMmio {
    fn trace(&self) -> Trace {
        unreachable!()
    }
    fn read32(&mut self, offset: usize) -> u32 {
        if let Some(hook) = &*self.on_read.borrow() {
            if let Some(v) = hook(offset) {
                return v;
            }
        }
        *self.regs.borrow().get(&offset).unwrap_or(&0)
    }
    fn write32(&mut self, offset: usize, value: u32) {
        self.regs.borrow_mut().insert(offset, value);
        self.writes.borrow_mut().push((offset, value));
    }
}

#[test]
fn cmd_reg_encode_no_response_cmd0() {
    let v = cmd_reg::encode(cmd::GO_IDLE_STATE, ResponseType::NoResponse, false);
    assert_eq!(v & cmd_reg::INDEX_MASK, 0);
    assert_eq!(v & 0b11, cmd_reg::RESP_NONE);
    assert_eq!(v & cmd_reg::CRC_CHECK_EN, 0);
    assert_eq!(v & cmd_reg::DATA_PRESENT, 0);
}

#[test]
fn cmd_reg_encode_r1_with_data() {
    let v = cmd_reg::encode(cmd::READ_SINGLE_BLOCK, ResponseType::R1, true);
    assert_eq!(v >> cmd_reg::INDEX_SHIFT & 0x3F, cmd::READ_SINGLE_BLOCK as u16);
    assert_eq!(v & 0b11, cmd_reg::RESP_LEN_48);
    assert_ne!(v & cmd_reg::CRC_CHECK_EN, 0);
    assert_ne!(v & cmd_reg::INDEX_CHECK_EN, 0);
    assert_ne!(v & cmd_reg::DATA_PRESENT, 0);
}

#[test]
fn cmd_reg_encode_r2_uses_long_response() {
    let v = cmd_reg::encode(cmd::ALL_SEND_CID, ResponseType::R2, false);
    assert_eq!(v & 0b11, cmd_reg::RESP_LEN_136);
    assert_ne!(v & cmd_reg::CRC_CHECK_EN, 0);
}

#[test]
fn cmd_reg_encode_r1b_sets_busy_response() {
    let v = cmd_reg::encode(cmd::SELECT_CARD, ResponseType::R1b, false);
    assert_eq!(v & 0b11, cmd_reg::RESP_LEN_48B);
}

#[test]
fn cmd_reg_encode_r3_skips_crc_check() {
    let v = cmd_reg::encode(cmd::SD_SEND_OP_COND, ResponseType::R3, false);
    assert_eq!(v & 0b11, cmd_reg::RESP_LEN_48);
    assert_eq!(v & cmd_reg::CRC_CHECK_EN, 0);
}

#[test]
fn classify_int_status_ok_when_no_errors() {
    let s = int_status::CMD_COMPLETE | int_status::TRANSFER_COMPLETE;
    assert!(classify_int_status(s).is_ok());
}

#[test]
fn classify_int_status_picks_first_error() {
    assert_eq!(
        classify_int_status(int_status::ERROR | int_status::CMD_TIMEOUT),
        Err(HostError::CommandTimeout)
    );
    assert_eq!(classify_int_status(int_status::ERROR | int_status::DATA_CRC_ERROR), Err(HostError::DataCrc));
    assert_eq!(classify_int_status(int_status::ERROR), Err(HostError::Timeout));
}

#[test]
fn host_reset_all_completes_when_register_self_clears() {
    let m = MockMmio::new();
    let mut host = Host { mmio: m.clone(), poll_budget: 10 };

    let calls = Rc::new(RefCell::new(0u32));
    let calls2 = calls.clone();
    m.install_read_hook(move |off| {
        if off == reg::CLOCK_CONTROL {
            let n = *calls2.borrow();
            *calls2.borrow_mut() = n + 1;
            if n == 0 {
                Some(reset_bits::ALL as u32 * (1 << 24))
            } else {
                Some(0)
            }
        } else {
            None
        }
    });

    assert!(host.reset_all().is_ok());
    let writes = m.writes.borrow();
    assert!(
        writes.iter().any(|(off, _)| *off == reg::CLOCK_CONTROL),
        "expected a write to the CLOCK_CONTROL/RESET word"
    );
}

#[test]
fn host_reset_all_times_out_when_register_stuck() {
    let m = MockMmio::new();
    let mut host = Host { mmio: m.clone(), poll_budget: 5 };
    m.install_read_hook(|off| {
        if off == reg::CLOCK_CONTROL {
            Some((reset_bits::ALL as u32) * (1 << 24))
        } else {
            None
        }
    });
    assert_eq!(host.reset_all(), Err(HostError::Timeout));
}

#[test]
fn host_issue_command_writes_arg_and_cmd_then_reads_response() {
    let m = MockMmio::new();
    let mut host = Host { mmio: m.clone(), poll_budget: 100 };

    m.install_read_hook(move |off| {
        if off == reg::PRESENT_STATE {
            return Some(0);
        }
        if off == reg::INT_STATUS {
            return Some(int_status::CMD_COMPLETE);
        }
        if off == reg::RESPONSE0 {
            return Some(0x1234_0000);
        }
        None
    });

    let resp = host
        .issue_command(SdCommand::new(cmd::SEND_RELATIVE_ADDR, 0, ResponseType::R6), false)
        .expect("issue should succeed");
    assert_eq!(resp.short(), 0x1234_0000);

    let writes = m.writes.borrow();
    let arg_idx = writes.iter().position(|(o, _)| *o == reg::ARGUMENT).expect("ARG write");
    let cmd_idx = writes.iter().position(|(o, _)| *o == reg::TRANSFER_MODE).expect("CMD write");
    assert!(arg_idx < cmd_idx, "ARGUMENT must be written before COMMAND");
}

#[test]
fn host_issue_command_returns_error_on_cmd_timeout() {
    let m = MockMmio::new();
    let mut host = Host { mmio: m.clone(), poll_budget: 50 };
    m.install_read_hook(|off| {
        if off == reg::PRESENT_STATE {
            return Some(0);
        }
        if off == reg::INT_STATUS {
            return Some(int_status::ERROR | int_status::CMD_TIMEOUT);
        }
        None
    });
    let err = host
        .issue_command(SdCommand::new(cmd::GO_IDLE_STATE, 0, ResponseType::NoResponse), false)
        .unwrap_err();
    assert_eq!(err, HostError::CommandTimeout);
}

#[test]
fn host_issue_command_waits_for_cmd_inhibit() {
    let m = MockMmio::new();
    let mut host = Host { mmio: m.clone(), poll_budget: 50 };

    m.install_read_hook(|off| {
        if off == reg::PRESENT_STATE {
            Some(state::CMD_INHIBIT)
        } else {
            None
        }
    });
    let err = host
        .issue_command(SdCommand::new(cmd::GO_IDLE_STATE, 0, ResponseType::NoResponse), false)
        .unwrap_err();
    assert_eq!(err, HostError::Timeout);
}

#[test]
fn read_block_pulls_512_bytes_from_buffer_port() {
    let m = MockMmio::new();
    let mut host = Host { mmio: m.clone(), poll_budget: 100 };

    let data: Vec<u32> = (0..128).map(|i: u32| i.wrapping_mul(7).wrapping_add(1)).collect();
    let data_cell = Rc::new(RefCell::new(data.clone()));

    let phase = Rc::new(RefCell::new(0u32));
    let phase2 = phase.clone();
    let data_clone = data_cell.clone();
    m.install_read_hook(move |off| {
        if off == reg::PRESENT_STATE {
            return Some(0);
        }
        if off == reg::BUFFER_DATA_PORT {
            let mut d = data_clone.borrow_mut();
            if d.is_empty() {
                return Some(0);
            }
            return Some(d.remove(0));
        }
        if off == reg::INT_STATUS {
            let p = *phase2.borrow();
            let s = match p {
                0 => int_status::CMD_COMPLETE,
                1 => int_status::BUF_READ_READY,
                _ => int_status::TRANSFER_COMPLETE,
            };
            *phase2.borrow_mut() = p + 1;
            Some(s)
        } else if off == reg::RESPONSE0 {
            Some(0x0000_0900)
        } else {
            None
        }
    });

    let mut buf = [0u8; 512];
    let r1 = host.read_block(0, &mut buf).expect("read_block");
    assert_eq!(r1, 0x0000_0900);

    for i in 0..128 {
        let w = (i as u32).wrapping_mul(7).wrapping_add(1);
        let off = i * 4;
        assert_eq!(buf[off], w as u8);
        assert_eq!(buf[off + 1], (w >> 8) as u8);
        assert_eq!(buf[off + 2], (w >> 16) as u8);
        assert_eq!(buf[off + 3], (w >> 24) as u8);
    }

    let writes = m.writes.borrow();
    assert!(writes.iter().any(|(o, _)| *o == reg::BLOCK_SIZE), "BLOCK_SIZE/COUNT write missing");
    assert!(
        writes.iter().any(|(o, v)| *o == reg::ARGUMENT && *v == 0),
        "ARGUMENT(LBA=0) write missing"
    );
}

#[test]
fn write_block_pushes_512_bytes_to_buffer_port() {
    let m = MockMmio::new();
    let mut host = Host { mmio: m.clone(), poll_budget: 100 };

    let phase = Rc::new(RefCell::new(0u32));
    let phase2 = phase.clone();
    m.install_read_hook(move |off| {
        if off == reg::PRESENT_STATE {
            return Some(0);
        }
        if off == reg::INT_STATUS {
            let p = *phase2.borrow();
            let s = match p {
                0 => int_status::CMD_COMPLETE,
                1 => int_status::BUF_WRITE_READY,
                _ => int_status::TRANSFER_COMPLETE,
            };
            *phase2.borrow_mut() = p + 1;
            Some(s)
        } else if off == reg::RESPONSE0 {
            Some(0x0000_0900)
        } else {
            None
        }
    });

    let mut buf = [0u8; 512];
    for i in 0..512 {
        buf[i] = ((i as u32 * 13 + 7) & 0xFF) as u8;
    }

    let r1 = host.write_block(42, &buf).expect("write_block");
    assert_eq!(r1, 0x0000_0900);

    let writes = m.writes.borrow();
    let data_writes: Vec<_> =
        writes.iter().filter(|(o, _)| *o == reg::BUFFER_DATA_PORT).map(|(_, v)| *v).collect();
    assert_eq!(data_writes.len(), 128, "expected 128 word writes to BUFFER_DATA_PORT");

    for (i, w) in data_writes.iter().enumerate() {
        let off = i * 4;
        assert_eq!(*w as u8, buf[off]);
        assert_eq!((*w >> 8) as u8, buf[off + 1]);
        assert_eq!((*w >> 16) as u8, buf[off + 2]);
        assert_eq!((*w >> 24) as u8, buf[off + 3]);
    }

    assert!(
        writes.iter().any(|(o, v)| *o == reg::ARGUMENT && *v == 42),
        "ARGUMENT(LBA=42) write missing"
    );
}

#[test]
fn read_block_propagates_data_crc_error() {
    let m = MockMmio::new();
    let mut host = Host { mmio: m.clone(), poll_budget: 100 };
    let phase = Rc::new(RefCell::new(0u32));
    let phase2 = phase.clone();
    m.install_read_hook(move |off| {
        if off == reg::PRESENT_STATE {
            return Some(0);
        }
        if off == reg::INT_STATUS {
            let p = *phase2.borrow();
            *phase2.borrow_mut() = p + 1;
            Some(match p {
                0 => int_status::CMD_COMPLETE,
                1 => int_status::BUF_READ_READY,
                _ => int_status::ERROR | int_status::DATA_CRC_ERROR,
            })
        } else if off == reg::BUFFER_DATA_PORT {
            Some(0xDEAD_BEEF)
        } else {
            None
        }
    });
    let mut buf = [0u8; 512];
    assert_eq!(host.read_block(0, &mut buf), Err(HostError::DataCrc));
}

#[test]
fn xfer_mode_bits_for_read_and_write_differ_on_dir() {
    let read_mode = xfer_mode::READ_DIR | xfer_mode::BLOCK_COUNT_ENABLE;
    let write_mode = xfer_mode::BLOCK_COUNT_ENABLE;
    assert_ne!(read_mode & xfer_mode::READ_DIR, 0);
    assert_eq!(write_mode & xfer_mode::READ_DIR, 0);
}

#[test]
fn host_response_long_and_short() {
    let r = HostResponse { r: [1, 2, 3, 4] };
    assert_eq!(r.short(), 1);
    assert_eq!(r.long(), [1, 2, 3, 4]);
}
