//! Early boot: how memory is laid out, and how the first processes start.
use crate::arch::aarch64::boot::fdt::{parse_fdt_ram, RamRegion};
use crate::bytes::same_str;
use crate::mem::{MemoryManager, PAGE_SIZE, PHYS_LIMIT};
use vstd::prelude::*;

pub mod fdt;
pub mod launch;
pub mod tree;

verus! {

/// The kernel sees physical address `pa` at `pa + KERNEL_VA_OFFSET`.
pub const KERNEL_VA_OFFSET: u64 = 0xFFFF_8000_0000_0000;

/// What the image and the platform fix about memory.
#[derive(Clone, Copy)]
pub struct BootConfig {
    /// RAM base and size to go by when no device tree says otherwise; the size
    /// is also the most that is used.
    pub default_base: u64,
    pub max_ram: u64,
    /// Bytes at the top of RAM that are set aside for the framebuffer.
    pub framebuffer: u64,
    /// First byte after the kernel image and stack, as the kernel sees it.
    pub kernel_end: u64,
}

/// The bootstrap layout of memory.
#[derive(Clone, Copy, PartialEq, Eq, Structural, Debug)]
pub struct BootInfo {
    /// Physical base of RAM.
    pub ram_base: u64,
    /// Bytes of RAM that are managed.
    pub ram_size: u64,
    /// Where the page tracker starts, as the kernel sees it.
    pub page_tracker_base: u64,
    /// Bytes of the page tracker: two for each page.
    pub page_tracker_size: u64,
    /// First free byte after all bootstrap allocations.
    pub bootstrap_end: u64,
}

/// `a` rounded up to a page.
pub open spec fn page_up(a: int) -> int {
    (a + PAGE_SIZE - 1) / PAGE_SIZE as int * PAGE_SIZE
}

/// Hands out page-aligned memory from a start address on.
pub struct BumpAllocator {
    pub next: u64,
}

impl BumpAllocator {
    /// Rounds an address up to a page.
    pub fn align_up(addr: u64) -> (r: u64)
        requires
            addr + PAGE_SIZE <= u64::MAX,
        ensures
            r == page_up(addr as int),
    {
        (addr + (PAGE_SIZE - 1)) / PAGE_SIZE * PAGE_SIZE
    }

    /// An allocator that starts at the first page boundary from `start` on.
    pub fn new(start: u64) -> (r: BumpAllocator)
        requires
            start + PAGE_SIZE <= u64::MAX,
        ensures
            r.next == page_up(start as int),
    {
        BumpAllocator { next: Self::align_up(start) }
    }

    /// Takes one page.
    pub fn alloc_page(&mut self) -> (page: u64)
        requires
            old(self).next + PAGE_SIZE <= u64::MAX,
        ensures
            page == old(self).next,
            final(self).next == old(self).next + PAGE_SIZE,
    {
        let page: u64 = self.next;
        self.next = self.next + PAGE_SIZE;
        page
    }

    /// Where the next allocation would start.
    pub fn current(&self) -> (r: u64)
        ensures
            r == self.next,
    {
        self.next
    }
}

/// The RAM that a device tree, or in its absence the configuration, gives.
pub open spec fn found_ram(fdt: Option<Seq<u8>>, cfg: BootConfig) -> RamRegion {
    match fdt {
        None => RamRegion { base: cfg.default_base, size: cfg.max_ram },
        Some(b) => match fdt::ram_of(b) {
            Some(r) => r,
            None => RamRegion { base: cfg.default_base, size: cfg.max_ram },
        },
    }
}

/// How much of the found RAM is managed: at most the maximum, less the
/// framebuffer where that fits.
pub open spec fn managed_ram(found: int, cfg: BootConfig) -> int {
    let capped = if found < cfg.max_ram {
        found
    } else {
        cfg.max_ram as int
    };
    if capped >= cfg.framebuffer {
        capped - cfg.framebuffer
    } else {
        capped
    }
}

/// The bootstrap layout.
pub open spec fn boot_layout(fdt: Option<Seq<u8>>, cfg: BootConfig) -> BootInfo {
    let ram = found_ram(fdt, cfg);
    let size = managed_ram(ram.size as int, cfg);
    let tracker = page_up(cfg.kernel_end as int);
    let tracker_size = size / PAGE_SIZE as int * 2;
    BootInfo {
        ram_base: ram.base,
        ram_size: size as u64,
        page_tracker_base: tracker as u64,
        page_tracker_size: tracker_size as u64,
        bootstrap_end: page_up(tracker + tracker_size) as u64,
    }
}

/// Lays memory out: finds RAM in the device tree, sets the framebuffer aside,
/// and puts the page tracker behind the kernel.
pub fn init_memory(fdt: Option<&[u8]>, cfg: &BootConfig) -> (r: BootInfo)
    requires
        fdt matches Some(b) ==> b@.len() <= isize::MAX,
        cfg.kernel_end + cfg.max_ram + 2 * PAGE_SIZE <= u64::MAX,
    ensures
        r == boot_layout(
            match fdt {
                Some(b) => Some(b@),
                None => None,
            },
            *cfg,
        ),
{
    let fallback: RamRegion = RamRegion { base: cfg.default_base, size: cfg.max_ram };
    let ram: RamRegion = match fdt {
        Some(b) => match parse_fdt_ram(b) {
            Some(r) => r,
            None => fallback,
        },
        None => fallback,
    };
    let capped: u64 = if ram.size < cfg.max_ram { ram.size } else { cfg.max_ram };
    let ram_size: u64 = if capped >= cfg.framebuffer { capped - cfg.framebuffer } else { capped };
    let mut bump: BumpAllocator = BumpAllocator::new(cfg.kernel_end);
    let num_pages: u64 = ram_size / PAGE_SIZE;
    let page_tracker_size: u64 = num_pages * 2;
    let page_tracker_base: u64 = bump.current();
    bump.next = BumpAllocator::align_up(page_tracker_base + page_tracker_size);
    BootInfo {
        ram_base: ram.base,
        ram_size,
        page_tracker_base,
        page_tracker_size,
        bootstrap_end: bump.current(),
    }
}

/// The layout is in order: tracker and bootstrap end lie on page boundaries
/// behind the kernel, the tracker has room for every page, and never more than
/// the found RAM is managed.
pub proof fn law_boot_layout(fdt: Option<Seq<u8>>, cfg: BootConfig)
    requires
        cfg.kernel_end + cfg.max_ram + 2 * PAGE_SIZE <= u64::MAX,
    ensures
        ({
            let i = boot_layout(fdt, cfg);
            &&& cfg.kernel_end <= i.page_tracker_base
            &&& i.page_tracker_base % PAGE_SIZE == 0
            &&& i.bootstrap_end % PAGE_SIZE == 0
            &&& i.page_tracker_base + i.page_tracker_size <= i.bootstrap_end
            &&& i.page_tracker_size == i.ram_size / PAGE_SIZE * 2
            &&& i.ram_size <= found_ram(fdt, cfg).size
            &&& i.ram_size <= cfg.max_ram
        }),
{
}

/// How many pages from the start of RAM boot has used.
pub open spec fn boot_pages(info: BootInfo) -> int {
    (info.bootstrap_end - KERNEL_VA_OFFSET - info.ram_base + PAGE_SIZE - 1) / PAGE_SIZE as int
}

/// Marks every page up to the end of the bootstrap allocations as owned by
/// process 1, and the rest as free.
pub fn page_owners(info: &BootInfo) -> (owners: Vec<Option<u8>>)
    requires
        KERNEL_VA_OFFSET + info.ram_base <= info.bootstrap_end,
        info.bootstrap_end - KERNEL_VA_OFFSET - info.ram_base + PAGE_SIZE <= u64::MAX,
    ensures
        owners@.len() == info.ram_size / PAGE_SIZE,
        forall|i: int|
            0 <= i < owners@.len() ==> #[trigger] owners@[i] == (if i < boot_pages(*info) {
                Some(1u8)
            } else {
                None::<u8>
            }),
{
    let num_pages: u64 = info.ram_size / PAGE_SIZE;
    let phys_end: u64 = info.bootstrap_end - KERNEL_VA_OFFSET;
    let used: u64 = (phys_end - info.ram_base + (PAGE_SIZE - 1)) / PAGE_SIZE;
    let mut owners: Vec<Option<u8>> = Vec::new();
    let mut i: u64 = 0;
    while i < num_pages
        invariant
            i <= num_pages,
            num_pages == info.ram_size / PAGE_SIZE,
            used == boot_pages(*info),
            owners@.len() == i,
            forall|j: int|
                0 <= j < i ==> #[trigger] owners@[j] == (if j < boot_pages(*info) {
                    Some(1u8)
                } else {
                    None::<u8>
                }),
        decreases num_pages - i,
    {
        owners.push(if i < used { Some(1) } else { None });
        i = i + 1;
    }
    owners
}

/// Starts the memory manager: process 1 owns what boot has used, everything
/// else is free.
pub fn init_memory_manager(info: &BootInfo) -> (mm: MemoryManager)
    requires
        info.ram_base % PAGE_SIZE == 0,
        info.ram_base + info.ram_size <= PHYS_LIMIT,
        KERNEL_VA_OFFSET + info.ram_base <= info.bootstrap_end,
    ensures
        mm.wf(),
        mm@.base == info.ram_base,
        mm@.pages.len() == info.ram_size / PAGE_SIZE,
        forall|i: int|
            0 <= i < mm@.pages.len() ==> (#[trigger] mm@.pages[i]).owner == (if i < boot_pages(
                *info,
            ) {
                Some(1u8)
            } else {
                None::<u8>
            }),
{
    let owners: Vec<Option<u8>> = page_owners(info);
    MemoryManager::init_from_bootstrap(info.ram_base, &owners)
}

// ---------------------------------------------------------------------------
// Embedded programs
// ---------------------------------------------------------------------------

/// A program embedded in the kernel image.
#[derive(Clone, Copy)]
pub struct Binary<'a> {
    pub name: &'a str,
    pub elf: &'a [u8],
}

/// The first program from `i` on with the given name.
pub open spec fn binary_named(table: Seq<Binary>, name: Seq<char>, i: int) -> Option<int>
    decreases table.len() - i,
{
    if i < 0 || i >= table.len() {
        None
    } else if table[i].name@ == name {
        Some(i)
    } else {
        binary_named(table, name, i + 1)
    }
}

/// Looks a program up by name.
pub fn lookup_binary<'a>(table: &[Binary<'a>], name: &str) -> (r: Option<&'a [u8]>)
    ensures
        match r {
            Some(elf) => binary_named(table@, name@, 0) matches Some(i) && 0 <= i < table@.len()
                && elf@ == table@[i].elf@,
            None => binary_named(table@, name@, 0) is None,
        },
{
    let mut i: usize = 0;
    while i < table.len()
        invariant
            i <= table@.len(),
            binary_named(table@, name@, 0) == binary_named(table@, name@, i as int),
        decreases table@.len() - i,
    {
        if same_str(table[i].name, name) {
            return Some(table[i].elf);
        }
        i = i + 1;
    }
    None
}

/// A service that users do not start themselves.
pub open spec fn internal_service(name: Seq<char>) -> bool {
    name == "log"@ || name == "idle"@ || name == "shell"@ || name == "procman"@ || name == "fs"@
        || name == "block"@ || name == "beetos-test"@
}

/// Tests [`internal_service`].
fn is_internal(name: &str) -> (r: bool)
    ensures
        r == internal_service(name@),
{
    same_str(name, "log") || same_str(name, "idle") || same_str(name, "shell") || same_str(
        name,
        "procman",
    ) || same_str(name, "fs") || same_str(name, "block") || same_str(name, "beetos-test")
}

/// The programs that users may start, among the first `n`.
pub open spec fn user_binaries(table: Seq<Binary>, n: nat) -> Seq<Binary>
    decreases n,
{
    if n == 0 {
        Seq::empty()
    } else if internal_service(table[n - 1].name@) {
        user_binaries(table, (n - 1) as nat)
    } else {
        user_binaries(table, (n - 1) as nat).push(table[n - 1])
    }
}

/// What stands in the list stays there when it grows.
proof fn lemma_user_binaries(table: Seq<Binary>, k: nat, n: nat)
    requires
        k <= n,
    ensures
        user_binaries(table, k).len() <= user_binaries(table, n).len(),
        forall|j: int|
            0 <= j < user_binaries(table, k).len() ==> #[trigger] user_binaries(table, n)[j]
                == user_binaries(table, k)[j],
    decreases n,
{
    if k < n {
        lemma_user_binaries(table, k, (n - 1) as nat);
    }
}

/// The name of the `index`-th program that users may start.
pub fn get_user_binary_at<'a>(table: &[Binary<'a>], index: usize) -> (r: Option<&'a str>)
    ensures
        match r {
            Some(name) => index < user_binaries(table@, table@.len()).len() && name@
                == user_binaries(table@, table@.len())[index as int].name@,
            None => index >= user_binaries(table@, table@.len()).len(),
        },
{
    let mut user_idx: usize = 0;
    let mut i: usize = 0;
    while i < table.len()
        invariant
            i <= table@.len(),
            user_idx == user_binaries(table@, i as nat).len(),
            user_idx <= index,
            user_idx <= i,
        decreases table@.len() - i,
    {
        let b: Binary<'a> = table[i];
        if !is_internal(b.name) {
            if user_idx == index {
                proof {
                    lemma_user_binaries(table@, (i + 1) as nat, table@.len());
                    assert(user_binaries(table@, (i + 1) as nat)[user_idx as int]
                        == table@[i as int]);
                }
                return Some(b.name);
            }
            user_idx = user_idx + 1;
        }
        i = i + 1;
    }
    None
}

/// Rounding up gives the first multiple of 16384 that is not smaller.
pub proof fn law_page_up(a: int)
    ensures
        a <= page_up(a) < a + 16384,
        page_up(a) % 16384 == 0,
        page_up(page_up(a)) == page_up(a),
{
}

/// The framebuffer is set aside at the top of what is used of RAM, where there is room for it;
/// what is used ends at the maximum, or where RAM ends.
pub proof fn law_framebuffer_is_set_aside(found: int, cfg: BootConfig)
    requires
        0 <= found,
    ensures
        ({
            let n = managed_ram(found, cfg);
            let used = if found <= cfg.max_ram {
                found
            } else {
                cfg.max_ram as int
            };
            &&& cfg.framebuffer <= used ==> n + cfg.framebuffer == used
            &&& cfg.framebuffer > used ==> n == used
        }),
{
}

/// Boot's own pages are exactly those that start before the end of what it has allocated: no
/// page with a byte of the kernel or the tracker is given out, and no other is kept back.
pub proof fn law_boot_keeps_its_pages(info: BootInfo, i: int)
    requires
        KERNEL_VA_OFFSET + info.ram_base <= info.bootstrap_end,
        0 <= i,
    ensures
        i < boot_pages(info) <==> info.ram_base + 16384 * i + 0xFFFF_8000_0000_0000
            < info.bootstrap_end,
{
}

/// A program is found by its name: the first that has it, and none only where none has.
pub proof fn law_program_is_found(table: Seq<Binary>, name: Seq<char>, i: int)
    requires
        0 <= i,
    ensures
        match binary_named(table, name, i) {
            Some(k) => i <= k < table.len() && table[k].name@ == name && forall|j: int|
                i <= j < k ==> (#[trigger] table[j]).name@ != name,
            None => forall|j: int| i <= j < table.len() ==> (#[trigger] table[j]).name@ != name,
        },
    decreases table.len() - i,
{
    if i < table.len() {
        law_program_is_found(table, name, i + 1);
    }
}

/// The programs that users may start are those of the table that are no services of the
/// system: each that is none stands in the list, and the list has no other.
pub proof fn law_users_start_programs(table: Seq<Binary>, n: nat, k: int)
    requires
        n <= table.len(),
        0 <= k < n,
    ensures
        !internal_service(table[k].name@) ==> user_binaries(table, n).contains(table[k]),
        forall|j: int|
            0 <= j < user_binaries(table, n).len() ==> !internal_service(
                (#[trigger] user_binaries(table, n)[j]).name@,
            ) && table.contains(user_binaries(table, n)[j]),
    decreases n,
{
    let m = (n - 1) as nat;
    let before = user_binaries(table, m);
    let all = user_binaries(table, n);
    if m > 0 {
        law_users_start_programs(
            table,
            m,
            if k < m {
                k
            } else {
                0
            },
        );
    }
    if !internal_service(table[m as int].name@) {
        assert(all == before.push(table[m as int]));
        assert(all[before.len() as int] == table[m as int]);
    }
    if k < m && !internal_service(table[k].name@) {
        let j = before.index_of(table[k]);
        assert(all[j] == before[j]);
    }
    assert forall|j: int| 0 <= j < all.len() implies !internal_service(
        (#[trigger] all[j]).name@,
    ) && table.contains(all[j]) by {
        if j < before.len() {
            assert(all[j] == before[j]);
        } else {
            assert(all[j] == table[m as int]);
        }
    }
}

} // verus!
