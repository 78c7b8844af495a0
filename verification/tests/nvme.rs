use beetos_kernel::nvme::{
    admin_opc, cid_of, cns, nvm_opc, opcode_of, pack_cdw0, sc_generic, sct, CompletionQueue,
    ControllerInfo, Cqe, NamespaceInfo, Sqe, StatusField, SubmissionQueue,
};

#[test]
fn sqe_struct_is_64_bytes() {
    assert_eq!(std::mem::size_of::<Sqe>(), 64);
}

#[test]
fn cqe_struct_is_16_bytes() {
    assert_eq!(std::mem::size_of::<Cqe>(), 16);
}

#[test]
fn pack_cdw0_packs_fields_correctly() {
    let w = pack_cdw0(admin_opc::IDENTIFY, 0, 0x1234);
    assert_eq!(opcode_of(w), admin_opc::IDENTIFY);
    assert_eq!(cid_of(w), 0x1234);
    assert_eq!((w >> 8) & 0xFF, 0);
}

#[test]
fn pack_cdw0_keeps_flags() {
    assert_eq!(pack_cdw0(0x02, 0x41, 0xBEEF), 0xBEEF_4102);
}

#[test]
fn sqe_identify_packs_cns_and_nsid() {
    let s = Sqe::identify(42, cns::IDENTIFY_CONTROLLER, 0, 0xDEAD_BEEF_CAFE);
    assert_eq!(opcode_of(s.cdw0), admin_opc::IDENTIFY);
    assert_eq!(cid_of(s.cdw0), 42);
    assert_eq!(s.cdw10 as u8, cns::IDENTIFY_CONTROLLER);
    assert_eq!(s.prp1, 0xDEAD_BEEF_CAFE);
}

#[test]
fn sqe_read_packs_64bit_lba_split_across_cdw10_11() {
    let s = Sqe::read(7, 1, 0x0000_0001_BEEF_CAFE, 8, 0x1000);
    assert_eq!(opcode_of(s.cdw0), nvm_opc::READ);
    assert_eq!(s.cdw10, 0xBEEF_CAFE);
    assert_eq!(s.cdw11, 0x0000_0001);
    assert_eq!(s.cdw12 & 0xFFFF, 7);
    assert_eq!(s.prp1, 0x1000);
    assert_eq!(s.nsid, 1);
}

#[test]
fn sqe_write_differs_from_read_only_in_opcode() {
    let r = Sqe::read(1, 2, 100, 1, 0x4000);
    let w = Sqe::write(1, 2, 100, 1, 0x4000);
    assert_ne!(r, w);
    assert_eq!(opcode_of(r.cdw0), nvm_opc::READ);
    assert_eq!(opcode_of(w.cdw0), nvm_opc::WRITE);
    assert_eq!(r.cdw10, w.cdw10);
    assert_eq!(r.cdw11, w.cdw11);
    assert_eq!(r.cdw12, w.cdw12);
    assert_eq!(r.prp1, w.prp1);
    assert_eq!(r.nsid, w.nsid);
}

#[test]
fn sqe_flush_only_carries_opcode_and_nsid() {
    let f = Sqe::flush(99, 3);
    assert_eq!(opcode_of(f.cdw0), nvm_opc::FLUSH);
    assert_eq!(cid_of(f.cdw0), 99);
    assert_eq!(f.nsid, 3);
    assert_eq!(f.prp1, 0);
    assert_eq!(f.cdw10, 0);
}

#[test]
fn cqe_decodes_cid_phase_status() {
    let cqe = Cqe {
        dw0: 0,
        dw1: 0,
        sq_head_sqid: (5 << 16) | 0x10,
        cid_phase_status: 0xABCD | (1 << 16),
    };
    assert_eq!(cqe.cid(), 0xABCD);
    assert!(cqe.phase());
    assert!(cqe.status().is_success());
    assert_eq!(cqe.sqid(), 5);
    assert_eq!(cqe.sq_head(), 16);
}

#[test]
fn cqe_status_decodes_invalid_field() {
    let status_raw: u16 =
        sc_generic::INVALID_FIELD as u16 | (sct::GENERIC as u16) << 8 | 0x4000;
    let cqe = Cqe {
        dw0: 0,
        dw1: 0,
        sq_head_sqid: 0,
        cid_phase_status: (status_raw as u32) << 17,
    };
    let s = cqe.status();
    assert_eq!(s.sct, sct::GENERIC);
    assert_eq!(s.sc, sc_generic::INVALID_FIELD);
    assert!(s.dnr);
    assert!(!s.more);
    assert!(!s.is_success());
}

#[test]
fn status_field_extracts_lba_out_of_range() {
    let raw: u16 = sc_generic::LBA_OUT_OF_RANGE as u16;
    let s = StatusField::from_raw(raw);
    assert_eq!(s.sc, sc_generic::LBA_OUT_OF_RANGE);
    assert!(!s.is_success());
}

#[test]
fn controller_info_parses_strings_and_ids() {
    let mut buf = [0u8; 4096];
    buf[0] = 0x6B;
    buf[1] = 0x10;
    buf[2] = 0xCD;
    buf[3] = 0xAB;
    buf[4..24].copy_from_slice(b"SN1234567890        ");
    buf[24..64].copy_from_slice(b"APPLE SSD AP1024Q                       ");
    buf[64..72].copy_from_slice(b"FW17    ");
    buf[77] = 5;

    let ci = ControllerInfo::parse(&buf);
    assert_eq!(ci.vid, 0x106B);
    assert_eq!(ci.ssvid, 0xABCD);
    assert_eq!(&ci.serial[..14], b"SN1234567890  ");
    assert_eq!(&ci.model[..15], b"APPLE SSD AP102");
    assert_eq!(&ci.firmware_rev, b"FW17    ");
    assert_eq!(ci.mdts, 5);
}

#[test]
fn namespace_info_decodes_capacity_and_block_size() {
    let mut buf = [0u8; 4096];
    buf[0..8].copy_from_slice(&0x0000_0000_0004_0000u64.to_le_bytes());
    buf[8..16].copy_from_slice(&0x0000_0000_0004_0000u64.to_le_bytes());
    buf[25] = 1;
    buf[26] = 0;
    buf[128 + 2] = 12;

    let ns = NamespaceInfo::parse(&buf);
    assert_eq!(ns.size_lba, 0x40000);
    assert_eq!(ns.block_size, 4096);
    assert_eq!(ns.capacity_bytes(), 0x40000 * 4096);
}

#[test]
fn namespace_info_uses_the_format_that_is_set() {
    let mut buf = [0u8; 4096];
    buf[26] = 3;
    buf[128 + 2] = 12;
    buf[128 + 3 * 4 + 2] = 9;
    assert_eq!(NamespaceInfo::parse(&buf).block_size, 512);
}

#[test]
fn sq_advances_and_wraps() {
    let mut sq = SubmissionQueue::new(4);
    assert_eq!(sq.advance_tail(), 0);
    assert_eq!(sq.advance_tail(), 1);
    assert_eq!(sq.advance_tail(), 2);
    assert_eq!(sq.advance_tail(), 3);
    assert_eq!(sq.advance_tail(), 0);
}

#[test]
fn cq_pop_flips_phase_on_wrap() {
    let mut cq = CompletionQueue::new(4);
    assert!(cq.phase);
    cq.pop();
    cq.pop();
    cq.pop();
    assert!(cq.phase);
    cq.pop();
    assert!(!cq.phase);
    assert_eq!(cq.head, 0);
}
