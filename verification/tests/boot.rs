use beetos_kernel::arch::aarch64::boot::fdt::{
    compat_has, parse_fdt_mmio, parse_fdt_ram, MmioAddrs, RamRegion,
};
use beetos_kernel::arch::aarch64::boot::launch::{
    action_of, boot_processes, disk_plan, entry_frame, next_step, page_read, Action, LaunchPlan,
    LaunchStep, PageRead, BLOCK_PID, DISK_DATA_VA, SHELL_PID, SHELL_UART_VA,
};
use beetos_kernel::arch::aarch64::boot::{
    get_user_binary_at, init_memory, init_memory_manager, lookup_binary, page_owners, Binary,
    BootConfig, BumpAllocator, KERNEL_VA_OFFSET,
};
use beetos_kernel::arch::aarch64::elf::{load_elf, AslrRange};
use beetos_kernel::arch::aarch64::mem::MemoryMapping;
use beetos_kernel::error::Error;
use beetos_kernel::mem::MemoryManager;

/// Puts a device tree together.
struct Tree {
    structs: Vec<u8>,
    strings: Vec<u8>,
}

impl Tree {
    fn new() -> Self {
        Tree { structs: Vec::new(), strings: Vec::new() }
    }
    fn word(&mut self, w: u32) {
        self.structs.extend_from_slice(&w.to_be_bytes());
    }
    fn pad(&mut self) {
        while self.structs.len() % 4 != 0 {
            self.structs.push(0);
        }
    }
    fn begin(&mut self, name: &str) {
        self.word(1);
        self.structs.extend_from_slice(name.as_bytes());
        self.structs.push(0);
        self.pad();
    }
    fn end(&mut self) {
        self.word(2);
    }
    fn prop(&mut self, name: &str, value: &[u8]) {
        let at = self.strings.len() as u32;
        self.strings.extend_from_slice(name.as_bytes());
        self.strings.push(0);
        self.word(3);
        self.word(value.len() as u32);
        self.word(at);
        self.structs.extend_from_slice(value);
        self.pad();
    }
    fn finish(mut self) -> Vec<u8> {
        self.word(9);
        let off_struct = 40u32;
        let off_strings = off_struct + self.structs.len() as u32;
        let total = off_strings + self.strings.len() as u32;
        let mut out = Vec::new();
        out.extend_from_slice(&0xD00D_FEEDu32.to_be_bytes());
        out.extend_from_slice(&total.to_be_bytes());
        out.extend_from_slice(&off_struct.to_be_bytes());
        out.extend_from_slice(&off_strings.to_be_bytes());
        out.resize(40, 0);
        out.extend_from_slice(&self.structs);
        out.extend_from_slice(&self.strings);
        out
    }
}

fn cells(values: &[u64]) -> Vec<u8> {
    let mut out = Vec::new();
    for v in values {
        out.extend_from_slice(&v.to_be_bytes());
    }
    out
}

fn machine() -> Vec<u8> {
    let mut t = Tree::new();
    t.begin("");
    t.prop("compatible", b"linux,dummy-virt\0");
    t.begin("memory@40000000");
    t.prop("device_type", b"memory\0");
    t.prop("reg", &cells(&[0x4000_0000, 0x2000_0000]));
    t.end();
    t.begin("pl011@9000000");
    t.prop("reg", &cells(&[0x0900_0000, 0x1000]));
    t.prop("compatible", b"arm,pl011\0arm,primecell\0");
    t.end();
    t.begin("intc@8000000");
    t.prop("compatible", b"arm,gic-v3\0");
    t.prop("reg", &cells(&[0x0800_0000, 0x1_0000, 0x080A_0000, 0xF6_0000]));
    t.end();
    t.end();
    t.finish()
}

#[test]
fn device_tree_names_ram() {
    assert_eq!(
        parse_fdt_ram(&machine()),
        Some(RamRegion { base: 0x4000_0000, size: 0x2000_0000 })
    );
}

#[test]
fn device_tree_names_devices() {
    assert_eq!(
        parse_fdt_mmio(&machine()),
        MmioAddrs {
            uart0_phys: Some(0x0900_0000),
            gicd_phys: Some(0x0800_0000),
            gicr_phys: Some(0x080A_0000),
        }
    );
}

#[test]
fn first_uart_wins() {
    let mut t = Tree::new();
    t.begin("");
    t.begin("a");
    t.prop("compatible", b"arm,pl011\0");
    t.prop("reg", &cells(&[1, 2]));
    t.end();
    t.begin("b");
    t.prop("compatible", b"arm,pl011\0");
    t.prop("reg", &cells(&[3, 4]));
    t.end();
    t.end();
    assert_eq!(parse_fdt_mmio(&t.finish()).uart0_phys, Some(1));
}

#[test]
fn broken_device_trees_are_refused() {
    let none = MmioAddrs { uart0_phys: None, gicd_phys: None, gicr_phys: None };
    assert_eq!(parse_fdt_ram(&[]), None);
    let mut bad = machine();
    bad[0] = 0;
    assert_eq!(parse_fdt_ram(&bad), None);
    assert_eq!(parse_fdt_mmio(&bad), none);
    let whole = machine();
    for n in 0..whole.len() {
        assert_eq!(parse_fdt_ram(&whole[..n]), None);
        assert_eq!(parse_fdt_mmio(&whole[..n]), none);
    }
}

#[test]
fn compatible_lists_hold_whole_strings() {
    assert!(compat_has(b"arm,pl011\0arm,primecell\0", b"arm,pl011"));
    assert!(compat_has(b"x\0arm,pl011\0", b"arm,pl011"));
    assert!(!compat_has(b"arm,pl011x\0", b"arm,pl011"));
    assert!(!compat_has(b"xarm,pl011\0", b"arm,pl011"));
}

#[test]
fn boot_layout_puts_the_tracker_behind_the_kernel() {
    let cfg = BootConfig {
        default_base: 0x4000_0000,
        max_ram: 0x4000_0000,
        framebuffer: 0x100_0000,
        kernel_end: KERNEL_VA_OFFSET + 0x4010_0001,
    };
    let tree = machine();
    let info = init_memory(Some(&tree), &cfg);
    assert_eq!(info.ram_base, 0x4000_0000);
    assert_eq!(info.ram_size, 0x1F00_0000);
    assert_eq!(info.page_tracker_base, KERNEL_VA_OFFSET + 0x4010_4000);
    assert_eq!(info.page_tracker_size, 0x1F00_0000 / 16384 * 2);
    assert_eq!(info.bootstrap_end % 16384, 0);
    assert!(info.bootstrap_end >= info.page_tracker_base + info.page_tracker_size);
    let owners = page_owners(&info);
    assert_eq!(owners.len(), 0x1F00_0000 / 16384);
    let taken = ((info.bootstrap_end - KERNEL_VA_OFFSET - 0x4000_0000) / 16384) as usize;
    assert_eq!(owners[taken - 1], Some(1));
    assert_eq!(owners[taken], None);
    assert_eq!(init_memory(None, &cfg).ram_size, 0x3F00_0000);
}

#[test]
fn memory_manager_of_a_small_machine() {
    let cfg = BootConfig {
        default_base: 0x4000_0000,
        max_ram: 0x40_0000,
        framebuffer: 0x100_0000,
        kernel_end: KERNEL_VA_OFFSET + 0x4000_8000,
    };
    let info = init_memory(None, &cfg);
    assert_eq!(info.ram_size, 0x40_0000);
    let mut mm = init_memory_manager(&info);
    assert_eq!(mm.pages.len(), 256);
    assert_eq!(mm.alloc_page(7), Ok(3));
}

#[test]
fn bump_allocator_hands_out_pages() {
    let mut a = BumpAllocator::new(0x4001);
    assert_eq!(a.alloc_page(), 0x8000);
    assert_eq!(a.alloc_page(), 0xC000);
    assert_eq!(a.current(), 0x1_0000);
    assert_eq!(BumpAllocator::align_up(0x4000), 0x4000);
}

#[test]
fn binaries_are_found_by_name() {
    let table = [
        Binary { name: "log", elf: b"L" },
        Binary { name: "hello", elf: b"H" },
        Binary { name: "hello", elf: b"second" },
    ];
    assert_eq!(lookup_binary(&table, "hello"), Some(&b"H"[..]));
    assert_eq!(lookup_binary(&table, "nothing"), None);
    assert_eq!(get_user_binary_at(&table, 0), Some("hello"));
    assert_eq!(get_user_binary_at(&table, 9), None);
}

fn walk(p: &LaunchPlan, fails: impl Fn(Action) -> bool) -> Vec<Action> {
    let mut out = Vec::new();
    let mut s = LaunchStep::Create(0);
    loop {
        let a = action_of(p, s);
        out.push(a);
        if s == LaunchStep::Enter {
            return out;
        }
        assert!(out.len() < 1000, "the launch should end");
        s = next_step(p, s, !fails(a));
    }
}

fn plan() -> LaunchPlan {
    LaunchPlan { processes: boot_processes(false), uart: true, disk: disk_plan(40) }
}

#[test]
fn launch_with_a_disk() {
    let actions = walk(&plan(), |_| false);
    assert_eq!(actions[0], Action::CreateProcess(0));
    assert_eq!(actions[5], Action::MapUart(2));
    assert_eq!(actions[10], Action::AllocDiskPage(0));
    assert_eq!(actions[12], Action::ReadDisk(0, PageRead { lba: 0, sectors: 32 }));
    assert_eq!(actions[13], Action::ReadDisk(1, PageRead { lba: 32, sectors: 8 }));
    assert_eq!(actions[15], Action::MapDiskPage(1, BLOCK_PID, DISK_DATA_VA + 16384));
    assert_eq!(
        actions[20],
        Action::SetArgs(BLOCK_PID, SHELL_UART_VA, DISK_DATA_VA, 40 * 512)
    );
    assert_eq!(actions.last(), Some(&Action::EnterUser(SHELL_PID)));
    assert_eq!(actions.len(), 22);
}

#[test]
fn launch_without_a_disk_that_cannot_be_read() {
    let actions = walk(&plan(), |a| matches!(a, Action::ReadDisk(1, _)));
    assert!(!actions.iter().any(|a| matches!(a, Action::MapDiskPage(..))));
    assert!(actions.contains(&Action::SetArgs(BLOCK_PID, SHELL_UART_VA, 0, 0)));
}

#[test]
fn launch_without_pages_for_the_disk() {
    let actions = walk(&plan(), |a| matches!(a, Action::AllocDiskPage(0)));
    assert!(actions.contains(&Action::AllocDiskPage(1)));
    assert!(!actions.iter().any(|a| matches!(a, Action::ReadDisk(..))));
}

#[test]
fn disks_that_are_left_out() {
    assert!(disk_plan(0).is_none());
    assert!(disk_plan(256 * 32 + 1).is_none());
    let d = disk_plan(256 * 32).unwrap();
    assert_eq!(d.pages, 256);
    assert_eq!(page_read(&d, 255), PageRead { lba: 8160, sectors: 32 });
}

#[test]
fn boot_processes_in_test_mode() {
    let names: Vec<&str> = boot_processes(true).iter().map(|p| p.name).collect();
    assert_eq!(names, vec!["log", "procman", "shell", "fs", "block", "beetos-test"]);
}

#[test]
fn entry_frame_is_aligned() {
    assert_eq!(entry_frame(0x10000), (0x10000 - 4096 - 816) / 16 * 16);
}

/// A file with one segment.
fn elf(typ: u16, flags: u32, vaddr: u64, data: &[u8], memsz: u64) -> Vec<u8> {
    let mut f = vec![0u8; 64 + 56];
    f[0..4].copy_from_slice(b"\x7FELF");
    f[4] = 2;
    f[5] = 1;
    f[16..18].copy_from_slice(&typ.to_le_bytes());
    f[18..20].copy_from_slice(&183u16.to_le_bytes());
    f[24..32].copy_from_slice(&(vaddr + 4).to_le_bytes());
    f[32..40].copy_from_slice(&64u64.to_le_bytes());
    f[54..56].copy_from_slice(&56u16.to_le_bytes());
    f[56..58].copy_from_slice(&1u16.to_le_bytes());
    f[64..68].copy_from_slice(&1u32.to_le_bytes());
    f[68..72].copy_from_slice(&flags.to_le_bytes());
    f[72..80].copy_from_slice(&120u64.to_le_bytes());
    f[80..88].copy_from_slice(&vaddr.to_le_bytes());
    f[96..104].copy_from_slice(&(data.len() as u64).to_le_bytes());
    f[104..112].copy_from_slice(&memsz.to_le_bytes());
    f.extend_from_slice(data);
    f
}

fn fresh() -> (MemoryManager, MemoryMapping) {
    let owners: Vec<Option<u8>> = vec![None; 32];
    let mut mm = MemoryManager::init_from_bootstrap(0x4000_0000, &owners);
    let mut m = MemoryMapping { ttbr0: 0, pid: 0 };
    m.allocate(&mut mm, 5).unwrap();
    (mm, m)
}

fn byte_at(mm: &MemoryManager, m: &MemoryMapping, va: u64) -> u8 {
    let pa = m.virt_to_phys(mm, va).unwrap();
    mm.read_byte(((pa - mm.base) / 16384) as usize, (pa % 16384) as usize)
}

const ASLR: AslrRange = AslrRange { start: 0x10_0000_0000, end: 0x10_1000_0000 };

#[test]
fn segment_is_loaded() {
    let (mut mm, m) = fresh();
    let f = elf(2, 5, 0x1_0008, &[1, 2, 3], 20000);
    let r = load_elf(&f, 5, &m, &mut mm, 77, &ASLR).unwrap();
    assert_eq!(r.entry_point, 0x1_000C);
    assert_eq!(r.aslr_slide, 0);
    assert_eq!(byte_at(&mm, &m, 0x1_0008), 1);
    assert_eq!(byte_at(&mm, &m, 0x1_000A), 3);
    assert_eq!(byte_at(&mm, &m, 0x1_000B), 0);
    assert_eq!(byte_at(&mm, &m, 0x1_0008 + 19999), 0);
    assert!(m.virt_to_phys(&mm, 0x1_8000).is_err());
}

#[test]
fn position_independent_file_is_shifted() {
    let (mut mm, m) = fresh();
    let f = elf(3, 5, 0, &[9], 1);
    let r = load_elf(&f, 5, &m, &mut mm, 0x4001, &ASLR).unwrap();
    let slide = 0x10_0000_0000 + (0x4001 % 0x4000) * 16384;
    assert_eq!(r.aslr_slide, slide);
    assert_eq!(r.entry_point, slide + 4);
    assert_eq!(byte_at(&mm, &m, slide), 9);
}

#[test]
fn writable_and_executable_segment_is_refused() {
    let (mut mm, m) = fresh();
    let f = elf(2, 7, 0x1_0000, &[1], 1);
    assert_eq!(load_elf(&f, 5, &m, &mut mm, 0, &ASLR), Err(Error::BadAddress));
    assert!(m.virt_to_phys(&mm, 0x1_0000).is_err());
}

#[test]
fn files_that_are_no_programs_are_refused() {
    let (mut mm, m) = fresh();
    assert_eq!(load_elf(&[], 5, &m, &mut mm, 0, &ASLR), Err(Error::BadAddress));
    let mut f = elf(2, 5, 0x1_0000, &[1], 1);
    f[18] = 62;
    assert_eq!(load_elf(&f, 5, &m, &mut mm, 0, &ASLR), Err(Error::BadAddress));
}

#[test]
fn loading_stops_when_memory_runs_out() {
    let (mut mm, m) = fresh();
    let f = elf(2, 5, 0x1_0000, &[1], 16384 * 40);
    assert_eq!(load_elf(&f, 5, &m, &mut mm, 0, &ASLR), Err(Error::OutOfMemory));
}

#[test]
fn relocated_words_hold_the_shifted_addend() {
    let (mut mm, m) = fresh();
    let mut data = vec![0u8; 0x120];
    let words: [(usize, u64); 6] = [(0, 7), (8, 0x80), (16, 8), (24, 48), (32, 9), (40, 24)];
    for (at, v) in words {
        data[at..at + 8].copy_from_slice(&v.to_le_bytes());
    }
    let relas: [(usize, [u64; 3]); 2] = [(0x80, [0x100, 1027, 0x1234]), (0x98, [0x108, 1, 0x55])];
    for (at, r) in relas {
        for (k, v) in r.iter().enumerate() {
            data[at + 8 * k..at + 8 * k + 8].copy_from_slice(&v.to_le_bytes());
        }
    }
    let mut f = elf(3, 6, 0, &data, 0x120);
    f[56] = 2;
    let mut second = vec![0u8; 56];
    second[0..4].copy_from_slice(&2u32.to_le_bytes());
    second[8..16].copy_from_slice(&176u64.to_le_bytes());
    second[32..40].copy_from_slice(&64u64.to_le_bytes());
    f.splice(120..120, second);
    f[72..80].copy_from_slice(&176u64.to_le_bytes());
    let r = load_elf(&f, 5, &m, &mut mm, 1, &ASLR).unwrap();
    let word = |at: u64| {
        let mut b = [0u8; 8];
        for (k, x) in b.iter_mut().enumerate() {
            *x = byte_at(&mm, &m, r.aslr_slide + at + k as u64);
        }
        u64::from_le_bytes(b)
    };
    assert_eq!(word(0x100), r.aslr_slide + 0x1234);
    assert_eq!(word(0x108), 0);
    assert_eq!(word(0x80), 0x100);
}
