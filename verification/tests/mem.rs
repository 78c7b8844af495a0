use beetos_kernel::arch::aarch64::mem::{
    cache_lines, flags_to_pte, l1_index, l2_index, l3_index, MemoryFlags, MemoryMapping,
    PAGE_SHIFT, PTE_UXN,
};
use beetos_kernel::error::Error;
use beetos_kernel::mem::{MemoryManager, PAGE_SIZE, TABLE_ENTRIES};

#[test]
fn test_index_extraction() {
    let va = 0x0000_0001_0000;
    assert_eq!(l1_index(va), 0);
    assert_eq!(l2_index(va), 0);
    assert_eq!(l3_index(va), 4);

    let va = 0x0000_6FFF_FFFF_C000;
    assert_eq!(l3_index(va), 2047);
}

#[test]
fn test_flags_to_pte_wx_enforcement() {
    let pte = flags_to_pte(
        MemoryFlags { writable: true, executable: true, device: false },
        true,
    );
    assert!(pte & PTE_UXN != 0, "W+X page should have UXN set");
}

#[test]
fn no_page_is_writable_and_executable() {
    for bits in 0..16 {
        let f = MemoryFlags {
            writable: bits & 1 != 0,
            executable: bits & 2 != 0,
            device: bits & 4 != 0,
        };
        let pte = flags_to_pte(f, bits & 8 != 0);
        assert_eq!(pte & 0x80 == 0, f.writable);
        if f.writable {
            assert_eq!(pte & 0x60_0000_0000_0000, 0x60_0000_0000_0000);
        }
    }
    let kernel_wx = MemoryFlags { writable: true, executable: true, device: false };
    assert_eq!(flags_to_pte(kernel_wx, false), 0x60_0000_0000_0707);
    let kernel_rx = MemoryFlags { writable: false, executable: true, device: false };
    assert_eq!(flags_to_pte(kernel_rx, false), 0x40_0000_0000_0787);
}

#[test]
fn test_page_table_constants() {
    assert_eq!(PAGE_SIZE, 16384);
    assert_eq!(TABLE_ENTRIES, 2048);
    assert_eq!(1 << PAGE_SHIFT, PAGE_SIZE);
}

fn memory(pages: usize) -> MemoryManager {
    let owners: Vec<Option<u8>> = vec![None; pages];
    MemoryManager::init_from_bootstrap(0x4000_0000, &owners)
}

fn space(mm: &mut MemoryManager, pid: u8) -> MemoryMapping {
    let mut m = MemoryMapping { ttbr0: 0, pid: 0 };
    m.allocate(mm, pid).unwrap();
    m
}

const RW: MemoryFlags = MemoryFlags { writable: true, executable: false, device: false };

#[test]
fn mapped_page_translates() {
    let mut mm = memory(16);
    let m = space(&mut mm, 3);
    assert_eq!(m.get_pid(), 3);
    assert!(m.address_available(&mm, 0x10_0000_0000));
    m.map_page(&mut mm, 0x4800_0123, 0x10_0000_0000, RW, true).unwrap();
    assert_eq!(m.virt_to_phys(&mm, 0x10_0000_0010), Ok(0x4800_0010));
    assert!(!m.address_available(&mm, 0x10_0000_0000));
    assert!(m.address_user_accessible(&mm, 0x10_0000_0000, 0x7000_0000_0000));
    assert!(!m.address_user_accessible(&mm, 0x10_0000_0000, 0x10_0000_0000));
}

#[test]
fn unmapped_page_does_not_translate() {
    let mut mm = memory(16);
    let m = space(&mut mm, 3);
    assert_eq!(m.unmap_page(&mut mm, 0x8000), Err(Error::BadAddress));
    m.map_page(&mut mm, 0x4800_0000, 0x8000, RW, true).unwrap();
    m.map_page(&mut mm, 0x4800_4000, 0xC000, RW, true).unwrap();
    m.unmap_page(&mut mm, 0x8000).unwrap();
    assert_eq!(m.virt_to_phys(&mm, 0x8000), Err(Error::BadAddress));
    assert_eq!(m.virt_to_phys(&mm, 0xC000), Ok(0x4800_4000));
}

#[test]
fn mapping_without_pages_for_tables_fails() {
    let mut mm = memory(2);
    let m = space(&mut mm, 3);
    assert_eq!(m.map_page(&mut mm, 0x4800_0000, 0x8000, RW, true), Err(Error::OutOfMemory));
    let mut other = MemoryMapping { ttbr0: 0, pid: 0 };
    assert_eq!(other.allocate(&mut mm, 4), Err(Error::OutOfMemory));
}

#[test]
fn moved_page_leaves_its_place() {
    let mut mm = memory(16);
    let a = space(&mut mm, 2);
    let b = space(&mut mm, 3);
    a.map_page(&mut mm, 0x4800_0000, 0x8000, RW, true).unwrap();
    a.move_page(&mut mm, 0x8000, &b, 0x1_0000).unwrap();
    assert_eq!(a.virt_to_phys(&mm, 0x8000), Err(Error::BadAddress));
    assert_eq!(b.virt_to_phys(&mm, 0x1_0000), Ok(0x4800_0000));
    assert_eq!(a.move_page(&mut mm, 0x8000, &b, 0x2_0000), Err(Error::BadAddress));
}

#[test]
fn lent_page_is_returned() {
    let mut mm = memory(16);
    let a = space(&mut mm, 2);
    let b = space(&mut mm, 3);
    a.map_page(&mut mm, 0x4800_0000, 0x8000, RW, true).unwrap();
    a.lend_page(&mut mm, 0x8000, &b, 0x1_0000, false).unwrap();
    assert_eq!(b.virt_to_phys(&mm, 0x1_0000), Ok(0x4800_0000));
    b.return_page(&mut mm, 0x1_0000).unwrap();
    assert_eq!(b.virt_to_phys(&mm, 0x1_0000), Err(Error::BadAddress));
    assert_eq!(a.virt_to_phys(&mm, 0x8000), Ok(0x4800_0000));
}

#[test]
fn page_that_is_missing_is_made() {
    let mut mm = memory(16);
    let a = space(&mut mm, 2);
    a.ensure_page_exists(&mut mm, 0x8000).unwrap();
    let first = a.virt_to_phys(&mm, 0x8000).unwrap();
    a.ensure_page_exists(&mut mm, 0x8000).unwrap();
    assert_eq!(a.virt_to_phys(&mm, 0x8000), Ok(first));
}

#[test]
fn page_attributes() {
    let user_rx = flags_to_pte(
        MemoryFlags { writable: false, executable: true, device: false },
        true,
    );
    assert_eq!(user_rx & PTE_UXN, 0);
    assert_eq!(flags_to_pte(RW, true) & PTE_UXN, PTE_UXN);
    assert_eq!(flags_to_pte(RW, true) & 3, 3);
    assert_eq!(
        flags_to_pte(MemoryFlags { writable: true, executable: false, device: true }, true) & 0x1C,
        0
    );
}

#[test]
fn address_space_tag() {
    let m = MemoryMapping::from_registers(0x0003_0000_4000_8001, 0x0303);
    assert_eq!(m.ttbr0(), 0x4000_8000);
    assert_eq!(m.get_pid(), 3);
    assert_eq!(m.activate(), 0x0003_0000_4000_8000);
    assert_eq!(MemoryMapping::from_registers(0, 0).get_pid(), 1);
}

#[test]
fn cache_lines_of_a_range() {
    assert_eq!(cache_lines(0x1010, 0x80), vec![0x1000, 0x1040, 0x1080]);
    assert_eq!(cache_lines(0x1000, 0), Vec::<u64>::new());
}
