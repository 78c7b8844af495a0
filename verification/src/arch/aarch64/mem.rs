//! Translation tables: three levels of 2048 entries over 16 KiB pages.
//!
//! An address splits into an index of eleven bits for each level and an offset
//! of fourteen. The tables are pages of physical memory ([`crate::mem`]); an
//! address space is known by the physical address of its first-level table.
use crate::error::Error;
use crate::mem::{
    MemModel, MemoryManager, Role, PAGE_SIZE, PHYS_LIMIT, PTE_ADDR_MASK, PTE_LINK, PTE_TABLE,
    PTE_VALID, TABLE_ENTRIES,
};
use vstd::prelude::*;

verus! {

/// Bits of the page offset.
pub const PAGE_SHIFT: usize = 14;

/// Bits of an index.
pub const TABLE_INDEX_BITS: usize = 11;

/// Bytes that an entry of the third level covers.
pub const L3_SPAN: u64 = 0x4000;

/// Bytes that an entry of the second level covers.
pub const L2_SPAN: u64 = 0x200_0000;

/// Bytes that an entry of the first level covers.
pub const L1_SPAN: u64 = 0x10_0000_0000;

pub const PTE_ATTR_DEVICE: u64 = 0;

pub const PTE_ATTR_NORMAL: u64 = 0x4;

pub const PTE_ATTR_NORMAL_NC: u64 = 0x8;

/// Kernel reads and writes, user has no access.
pub const PTE_AP_RW_EL1: u64 = 0;

/// Kernel and user read and write.
pub const PTE_AP_RW_ALL: u64 = 0x40;

/// Kernel reads, user has no access.
pub const PTE_AP_RO_EL1: u64 = 0x80;

/// Kernel and user read.
pub const PTE_AP_RO_ALL: u64 = 0xC0;

/// Inner shareable.
pub const PTE_SH_ISH: u64 = 0x300;

/// Access flag.
pub const PTE_AF: u64 = 0x400;

/// Not global: tagged with the address space.
pub const PTE_NG: u64 = 0x800;

/// Never executed by the kernel.
pub const PTE_PXN: u64 = 0x20_0000_0000_0000;

/// Never executed by user code.
pub const PTE_UXN: u64 = 0x40_0000_0000_0000;

/// Memory types: device, normal write-back, normal non-cacheable.
pub const MAIR_VALUE: u64 = 0x0000_0000_0044_FF00;

/// Translation control: 47-bit halves, 16 KiB granules, 48-bit physical
/// addresses, inner-shareable write-back walks.
pub const TCR_VALUE: u64 = 0x5_7511_B511;

/// What a mapping asks for.
#[derive(Clone, Copy, PartialEq, Eq, Structural, Debug)]
pub struct MemoryFlags {
    pub writable: bool,
    pub executable: bool,
    pub device: bool,
}

impl MemoryFlags {
    /// Read-only memory.
    pub fn empty() -> (r: MemoryFlags)
        ensures
            r == (MemoryFlags { writable: false, executable: false, device: false }),
    {
        MemoryFlags { writable: false, executable: false, device: false }
    }

    /// Writable memory.
    pub fn w() -> (r: MemoryFlags)
        ensures
            r == (MemoryFlags { writable: true, executable: false, device: false }),
    {
        MemoryFlags { writable: true, executable: false, device: false }
    }
}

// ---------------------------------------------------------------------------
// Indices and attributes
// ---------------------------------------------------------------------------

/// First-level index of an address (bits 46 to 36).
pub open spec fn l1_of(va: u64) -> int {
    (va / L1_SPAN) as int % TABLE_ENTRIES as int
}

/// Second-level index of an address (bits 35 to 25).
pub open spec fn l2_of(va: u64) -> int {
    (va / L2_SPAN) as int % TABLE_ENTRIES as int
}

/// Third-level index of an address (bits 24 to 14).
pub open spec fn l3_of(va: u64) -> int {
    (va / L3_SPAN) as int % TABLE_ENTRIES as int
}

/// First-level index of an address.
pub fn l1_index(va: u64) -> (r: usize)
    ensures
        r == l1_of(va),
{
    (va / L1_SPAN % 2048) as usize
}

/// Second-level index of an address.
pub fn l2_index(va: u64) -> (r: usize)
    ensures
        r == l2_of(va),
{
    (va / L2_SPAN % 2048) as usize
}

/// Third-level index of an address.
pub fn l3_index(va: u64) -> (r: usize)
    ensures
        r == l3_of(va),
{
    (va / L3_SPAN % 2048) as usize
}

/// The hardware's walk with pages of 16 KiB: eleven bits of the address each choose the
/// entry of the first, the second and the third table, and the lowest fourteen the byte.
pub proof fn law_indices_are_address_bits(va: u64)
    ensures
        l1_of(va) == va as int / 0x10_0000_0000 % 2048,
        l2_of(va) == va as int / 0x200_0000 % 2048,
        l3_of(va) == va as int / 0x4000 % 2048,
        PAGE_SIZE == 0x4000,
{
}

/// The three indices and the offset determine a 47-bit address.
pub proof fn law_indices_determine_address(va: u64)
    requires
        va < 0x8000_0000_0000,
    ensures
        va == l1_of(va) * L1_SPAN + l2_of(va) * L2_SPAN + l3_of(va) * L3_SPAN + va % PAGE_SIZE,
{
}

/// Permission bits of a user page: writable pages are never executable.
pub open spec fn user_bits(f: MemoryFlags) -> u64 {
    if f.writable {
        PTE_AP_RW_ALL | PTE_UXN | PTE_PXN
    } else if f.executable {
        PTE_AP_RO_ALL | PTE_PXN
    } else {
        PTE_AP_RO_ALL | PTE_UXN | PTE_PXN
    }
}

/// Permission bits of a kernel page: writable pages are never executable.
pub open spec fn kernel_bits(f: MemoryFlags) -> u64 {
    if f.writable {
        PTE_AP_RW_EL1 | PTE_UXN | PTE_PXN
    } else if f.executable {
        PTE_AP_RO_EL1 | PTE_UXN
    } else {
        PTE_AP_RO_EL1 | PTE_UXN | PTE_PXN
    }
}

/// The attribute bits of a third-level entry.
pub open spec fn pte_bits(f: MemoryFlags, user: bool) -> u64 {
    PTE_VALID | PTE_TABLE | PTE_AF | PTE_SH_ISH | (if f.device {
        PTE_ATTR_DEVICE
    } else {
        PTE_ATTR_NORMAL
    }) | (if user {
        PTE_NG | user_bits(f)
    } else {
        kernel_bits(f)
    })
}

/// Attribute bits for a mapping. A page that is asked for as writable and executable
/// is mapped writable only.
pub fn flags_to_pte(flags: MemoryFlags, user: bool) -> (r: u64)
    ensures
        r == pte_bits(flags, user),
{
    let attr: u64 = if flags.device { PTE_ATTR_DEVICE } else { PTE_ATTR_NORMAL };
    let access: u64 = if user {
        PTE_NG | (if flags.writable {
            PTE_AP_RW_ALL | PTE_UXN | PTE_PXN
        } else if flags.executable {
            PTE_AP_RO_ALL | PTE_PXN
        } else {
            PTE_AP_RO_ALL | PTE_UXN | PTE_PXN
        })
    } else {
        if flags.writable {
            PTE_AP_RW_EL1 | PTE_UXN | PTE_PXN
        } else if flags.executable {
            PTE_AP_RO_EL1 | PTE_UXN
        } else {
            PTE_AP_RO_EL1 | PTE_UXN | PTE_PXN
        }
    };
    PTE_VALID | PTE_TABLE | PTE_AF | PTE_SH_ISH | attr | access
}

/// No page is both writable and executable, be it by user code or by the kernel: an
/// entry that is not read-only forbids both to execute. What is asked for as writable
/// is mapped so. No user page is executable by the kernel, and no kernel page is open
/// to user code.
pub proof fn law_write_xor_execute(f: MemoryFlags, user: bool)
    ensures
        pte_bits(f, user) & 0x80 == 0 ==> pte_bits(f, user) & PTE_PXN != 0 && pte_bits(f, user)
            & PTE_UXN != 0,
        f.writable <==> pte_bits(f, user) & 0x80 == 0,
        user ==> pte_bits(f, user) & PTE_PXN != 0,
        !user ==> pte_bits(f, user) & 0x40 == 0 && pte_bits(f, user) & PTE_UXN != 0,
{
    let a = if f.device {
        PTE_ATTR_DEVICE
    } else {
        PTE_ATTR_NORMAL
    };
    lemma_permission_bits();
    lemma_bits(user_bits(f), kernel_bits(f), a);
}

/// The attributes of a page as the hardware reads them. A third-level entry is valid and a
/// page (bits 0 and 1), marked as accessed (bit 10) and inner shareable (bits 8 and 9).
/// Memory attribute 0, in bits 2 to 4, is for devices, and 1 for memory. A user page is open to
/// user code (bit 6) and tagged with its process (bit 11), and user code executes it exactly
/// where it is asked for as executable and not as writable (bit 54 clear); a kernel page has
/// neither bit, and the kernel executes it under the same condition (bit 53 clear). Bit 7 is
/// set where a page is read-only.
pub proof fn law_page_attributes(f: MemoryFlags, user: bool)
    ensures
        ({
            let e = pte_bits(f, user);
            let code = f.executable && !f.writable;
            &&& e & 3 == 3
            &&& e & 0x400 == 0x400
            &&& e & 0x300 == 0x300
            &&& e & 0x1C == (if f.device {
                0u64
            } else {
                4
            })
            &&& e & 0x40 == (if user {
                0x40u64
            } else {
                0
            })
            &&& e & 0x800 == (if user {
                0x800u64
            } else {
                0
            })
            &&& e & 0x80 == (if f.writable {
                0u64
            } else {
                0x80
            })
            &&& e & 0x40_0000_0000_0000 == (if user && code {
                0u64
            } else {
                0x40_0000_0000_0000
            })
            &&& e & 0x20_0000_0000_0000 == (if !user && code {
                0u64
            } else {
                0x20_0000_0000_0000
            })
        }),
{
    let a = if f.device {
        PTE_ATTR_DEVICE
    } else {
        PTE_ATTR_NORMAL
    };
    lemma_permission_bits();
    lemma_user_attributes(user_bits(f), a);
    lemma_kernel_attributes(kernel_bits(f), a);
}

/// The bits of a user entry.
proof fn lemma_user_attributes(u: u64, a: u64)
    requires
        u == 0x60_0000_0000_0040 || u == 0x20_0000_0000_00C0 || u == 0x60_0000_0000_00C0,
        a == 0 || a == 4,
    ensures
        ({
            let e = 1u64 | 2 | 0x400 | 0x300 | a | (0x800 | u);
            &&& e & 3 == 3 && e & 0x400 == 0x400 && e & 0x300 == 0x300 && e & 0x1C == a
            &&& e & 0x40 == 0x40 && e & 0x800 == 0x800
            &&& e & 0x80 == u & 0x80
            &&& e & 0x40_0000_0000_0000 == u & 0x40_0000_0000_0000
            &&& e & 0x20_0000_0000_0000 == 0x20_0000_0000_0000
            &&& u & 0x80 == (if u == 0x60_0000_0000_0040 {
                0u64
            } else {
                0x80
            })
            &&& u & 0x40_0000_0000_0000 == (if u == 0x20_0000_0000_00C0 {
                0u64
            } else {
                0x40_0000_0000_0000
            })
        }),
{
    assert((u == 0x60_0000_0000_0040u64 || u == 0x20_0000_0000_00C0u64 || u
        == 0x60_0000_0000_00C0u64) && (a == 0u64 || a == 4u64) ==> ({
        let e = 1u64 | 2 | 0x400 | 0x300 | a | (0x800 | u);
        e & 3 == 3 && e & 0x400 == 0x400 && e & 0x300 == 0x300 && e & 0x1C == a && e & 0x40 == 0x40
            && e & 0x800 == 0x800 && e & 0x80 == u & 0x80 && e & 0x40_0000_0000_0000 == u
            & 0x40_0000_0000_0000 && e & 0x20_0000_0000_0000 == 0x20_0000_0000_0000 && u & 0x80
            == (if u == 0x60_0000_0000_0040u64 {
            0u64
        } else {
            0x80u64
        }) && u & 0x40_0000_0000_0000 == (if u == 0x20_0000_0000_00C0u64 {
            0u64
        } else {
            0x40_0000_0000_0000u64
        })
    })) by (bit_vector);
}

/// The bits of a kernel entry.
proof fn lemma_kernel_attributes(k: u64, a: u64)
    requires
        k == 0x60_0000_0000_0000 || k == 0x40_0000_0000_0080 || k == 0x60_0000_0000_0080,
        a == 0 || a == 4,
    ensures
        ({
            let e = 1u64 | 2 | 0x400 | 0x300 | a | k;
            &&& e & 3 == 3 && e & 0x400 == 0x400 && e & 0x300 == 0x300 && e & 0x1C == a
            &&& e & 0x40 == 0 && e & 0x800 == 0
            &&& e & 0x80 == (if k == 0x60_0000_0000_0000 {
                0u64
            } else {
                0x80
            })
            &&& e & 0x40_0000_0000_0000 == 0x40_0000_0000_0000
            &&& e & 0x20_0000_0000_0000 == (if k == 0x40_0000_0000_0080 {
                0u64
            } else {
                0x20_0000_0000_0000
            })
        }),
{
    assert((k == 0x60_0000_0000_0000u64 || k == 0x40_0000_0000_0080u64 || k
        == 0x60_0000_0000_0080u64) && (a == 0u64 || a == 4u64) ==> ({
        let e = 1u64 | 2 | 0x400 | 0x300 | a | k;
        e & 3 == 3 && e & 0x400 == 0x400 && e & 0x300 == 0x300 && e & 0x1C == a && e & 0x40 == 0
            && e & 0x800 == 0 && e & 0x80 == (if k == 0x60_0000_0000_0000u64 {
            0u64
        } else {
            0x80u64
        }) && e & 0x40_0000_0000_0000 == 0x40_0000_0000_0000 && e & 0x20_0000_0000_0000 == (if k
            == 0x40_0000_0000_0080u64 {
            0u64
        } else {
            0x20_0000_0000_0000u64
        })
    })) by (bit_vector);
}

/// The permission bits as numbers.
proof fn lemma_permission_bits()
    ensures
        (0x40u64 | 0x40_0000_0000_0000u64 | 0x20_0000_0000_0000u64) == 0x60_0000_0000_0040u64,
        (0xC0u64 | 0x20_0000_0000_0000u64) == 0x20_0000_0000_00C0u64,
        (0xC0u64 | 0x40_0000_0000_0000u64 | 0x20_0000_0000_0000u64) == 0x60_0000_0000_00C0u64,
        (0u64 | 0x40_0000_0000_0000u64 | 0x20_0000_0000_0000u64) == 0x60_0000_0000_0000u64,
        (0x80u64 | 0x40_0000_0000_0000u64) == 0x40_0000_0000_0080u64,
        (0x80u64 | 0x40_0000_0000_0000u64 | 0x20_0000_0000_0000u64) == 0x60_0000_0000_0080u64,
{
    assert((0x40u64 | 0x40_0000_0000_0000u64 | 0x20_0000_0000_0000u64) == 0x60_0000_0000_0040u64 && (
    0xC0u64 | 0x20_0000_0000_0000u64) == 0x20_0000_0000_00C0u64 && (0xC0u64 | 0x40_0000_0000_0000u64
        | 0x20_0000_0000_0000u64) == 0x60_0000_0000_00C0u64 && (0u64 | 0x40_0000_0000_0000u64
        | 0x20_0000_0000_0000u64) == 0x60_0000_0000_0000u64 && (0x80u64 | 0x40_0000_0000_0000u64)
        == 0x40_0000_0000_0080u64 && (0x80u64 | 0x40_0000_0000_0000u64 | 0x20_0000_0000_0000u64)
        == 0x60_0000_0000_0080u64) by (bit_vector);
}

/// What the fixed bits contribute: an entry counts, and holds no address.
proof fn lemma_bits(u: u64, k: u64, a: u64)
    requires
        u == 0x60_0000_0000_0040 || u == 0x20_0000_0000_00C0 || u == 0x60_0000_0000_00C0,
        k == 0x60_0000_0000_0000 || k == 0x40_0000_0000_0080 || k == 0x60_0000_0000_0080,
        a == 0 || a == 4,
    ensures
        ({
            let e = 1u64 | 2 | 0x400 | 0x300 | a | (0x800 | u);
            let f = 1u64 | 2 | 0x400 | 0x300 | a | k;
            &&& e & 0x80 == 0 <==> u == 0x60_0000_0000_0040
            &&& e & 0x80 == 0 ==> e & 0x40_0000_0000_0000 != 0
            &&& e & 0x20_0000_0000_0000 != 0
            &&& f & 0x80 == 0 <==> k == 0x60_0000_0000_0000
            &&& f & 0x80 == 0 ==> f & 0x20_0000_0000_0000 != 0
            &&& f & 0x40 == 0
            &&& f & 0x40_0000_0000_0000 != 0
            &&& e & 1 == 1
            &&& f & 1 == 1
            &&& e & 0x0000_FFFF_FFFF_C000 == 0
            &&& f & 0x0000_FFFF_FFFF_C000 == 0
        }),
{
    assert((u == 0x60_0000_0000_0040u64 || u == 0x20_0000_0000_00C0u64 || u
        == 0x60_0000_0000_00C0u64) && (a == 0u64 || a == 4u64) ==> ({
        let e = 1u64 | 2 | 0x400 | 0x300 | a | (0x800 | u);
        ((e & 0x80 == 0) == (u == 0x60_0000_0000_0040u64)) && (e & 0x80 == 0 ==> e
            & 0x40_0000_0000_0000 != 0) && e & 0x20_0000_0000_0000 != 0 && e & 1 == 1 && e
            & 0x0000_FFFF_FFFF_C000 == 0
    })) by (bit_vector);
    assert((k == 0x60_0000_0000_0000u64 || k == 0x40_0000_0000_0080u64 || k
        == 0x60_0000_0000_0080u64) && (a == 0u64 || a == 4u64) ==> ({
        let f = 1u64 | 2 | 0x400 | 0x300 | a | k;
        ((f & 0x80 == 0) == (k == 0x60_0000_0000_0000u64)) && (f & 0x80 == 0 ==> f
            & 0x20_0000_0000_0000 != 0) && f & 0x40 == 0 && f & 0x40_0000_0000_0000 != 0 && f & 1
            == 1 && f & 0x0000_FFFF_FFFF_C000 == 0
    })) by (bit_vector);
}

/// The attribute bits count and hold no address.
proof fn lemma_pte_bits(f: MemoryFlags, user: bool)
    ensures
        pte_bits(f, user) & PTE_VALID == PTE_VALID,
        pte_bits(f, user) & PTE_ADDR_MASK == 0,
{
    let a = if f.device {
        PTE_ATTR_DEVICE
    } else {
        PTE_ATTR_NORMAL
    };
    lemma_permission_bits();
    lemma_bits(user_bits(f), kernel_bits(f), a);
}

// ---------------------------------------------------------------------------
// Walks
// ---------------------------------------------------------------------------

/// The third-level entry for `va` in the address space whose first-level table
/// is page `root`; 0 where there is none.
pub open spec fn pte_of(m: MemModel, root: int, va: u64) -> u64 {
    match m.child(root, l1_of(va)) {
        None => 0,
        Some(p2) => match m.child(p2, l2_of(va)) {
            None => 0,
            Some(p3) => m.pages[p3].table[l3_of(va)],
        },
    }
}

/// The physical address that `va` has, if it is mapped.
pub open spec fn translation(m: MemModel, root: int, va: u64) -> Option<int> {
    let e = pte_of(m, root, va);
    if e & PTE_VALID == 0 {
        None
    } else {
        Some((e & PTE_ADDR_MASK) + va % PAGE_SIZE)
    }
}

/// Two addresses lie in the same page of the 47-bit space.
pub open spec fn same_page(a: u64, b: u64) -> bool {
    l1_of(a) == l1_of(b) && l2_of(a) == l2_of(b) && l3_of(a) == l3_of(b)
}

/// An entry that refers to a table gives its address back.
proof fn lemma_link(pa: u64)
    requires
        pa % PAGE_SIZE == 0,
        pa < PHYS_LIMIT,
    ensures
        (pa | PTE_LINK) & PTE_ADDR_MASK == pa,
        (pa | PTE_LINK) & PTE_VALID != 0,
        (pa | PTE_LINK) & PTE_TABLE != 0,
        pa | PTE_LINK != 0,
        pa & PTE_ADDR_MASK == pa,
        (pa | PTE_VALID) | PTE_TABLE == pa | PTE_LINK,
{
    assert(pa % 16384 == 0 && pa < 0x1_0000_0000_0000u64 ==> (pa | 3u64) & 0x0000_FFFF_FFFF_C000
        == pa && (pa | 3u64) & 1 != 0 && (pa | 3u64) & 2 != 0 && pa | 3u64 != 0 && pa
        & 0x0000_FFFF_FFFF_C000 == pa && (pa | 1u64) | 2u64 == pa | 3u64) by (bit_vector);
}

/// The empty entry does not count.
proof fn lemma_empty_entry()
    ensures
        0u64 & PTE_VALID == 0,
        0u64 & PTE_ADDR_MASK == 0,
{
    assert(0u64 & 1u64 == 0 && 0u64 & 0x0000_FFFF_FFFF_C000u64 == 0) by (bit_vector);
}

/// Page addresses are aligned, in range, and give the page back.
proof fn lemma_addr(m: MemModel, q: int)
    requires
        m.wf(),
        0 <= q < m.pages.len(),
    ensures
        0 <= m.addr(q) < PHYS_LIMIT,
        m.addr(q) % PAGE_SIZE as int == 0,
        m.index(m.addr(q)) == q,
{
    assert(q * PAGE_SIZE + PAGE_SIZE <= m.pages.len() * PAGE_SIZE) by (nonlinear_arith)
        requires
            q + 1 <= m.pages.len(),
    ;
    assert((m.base + q * PAGE_SIZE) % PAGE_SIZE as int == 0) by {
        vstd::arithmetic::div_mod::lemma_mod_multiples_vanish(q, m.base, PAGE_SIZE as int);
    }
    assert((q * PAGE_SIZE) / (PAGE_SIZE as int) == q) by {
        vstd::arithmetic::div_mod::lemma_div_by_multiple(q, PAGE_SIZE as int);
    }
}

/// Following an entry of a well-formed tree.
proof fn lemma_child(m: MemModel, p: int, s: int)
    requires
        m.wf(),
        0 <= p < m.pages.len(),
        1 <= crate::mem::level(m.pages[p].role) <= 2,
        0 <= s < TABLE_ENTRIES,
    ensures
        match m.child(p, s) {
            None => m.pages[p].table[s] == 0 && m.pages[p].table[s] & PTE_VALID == 0,
            Some(q) => m.linked_to(p, s, q) && m.is_table(
                q,
                crate::mem::level(m.pages[p].role) + 1,
            ) && m.pages[p].table[s] & PTE_VALID != 0 && m.pages[p].table[s] & PTE_TABLE != 0
                && m.pages[p].table[s] & PTE_ADDR_MASK == m.addr(q) && 0 <= m.addr(q) < PHYS_LIMIT,
        },
{
    assert(m.page_ok(p));
    assert(m.entry_ok(p, s));
    lemma_empty_entry();
    if m.pages[p].table[s] != 0 {
        let q = choose|q: int| #[trigger] m.linked_to(p, s, q);
        lemma_addr(m, q);
        lemma_link(m.addr(q) as u64);
    }
}

/// The table that an entry refers to is its child.
proof fn lemma_child_is(m: MemModel, p: int, s: int, q: int)
    requires
        m.wf(),
        m.linked_to(p, s, q),
    ensures
        m.child(p, s) == Some(q),
{
    lemma_addr(m, q);
    lemma_link(m.addr(q) as u64);
}

/// The empty table `q` of process `pid` hangs at entry `s` of table `p`.
pub open spec fn linked(m: MemModel, p: int, s: int, q: int, pid: u8) -> MemModel {
    let l = crate::mem::level(m.pages[p].role) + 1;
    crate::mem::with_entry(
        crate::mem::with_table(
            crate::mem::with_data(m, q, Some(pid), crate::mem::zero_data()),
            q,
            Role::Table { level: l, parent: p, slot: s },
        ),
        p,
        s,
        m.addr(q) as u64 | PTE_LINK,
    )
}

/// The table at entry `s` of table `p`, made from the first free page if there
/// is none; `None` when memory has run out.
pub open spec fn ensured(m: MemModel, p: int, s: int, pid: u8) -> Option<(MemModel, int)> {
    match m.child(p, s) {
        Some(q) => Some((m, q)),
        None => match m.free_page(0) {
            None => None,
            Some(q) => Some((linked(m, p, s, q, pid), q)),
        },
    }
}

/// `va` gets the entry `e`, with the tables on the way to it; `false` when
/// memory has run out before.
pub open spec fn mapped(m: MemModel, root: int, va: u64, e: u64, pid: u8) -> (MemModel, bool) {
    match ensured(m, root, l1_of(va), pid) {
        None => (m, false),
        Some((m1, p2)) => match ensured(m1, p2, l2_of(va), pid) {
            None => (m1, false),
            Some((m2, p3)) => (crate::mem::with_entry(m2, p3, l3_of(va), e), true),
        },
    }
}

/// How many tables are missing on the way to `va`.
pub open spec fn missing_tables(m: MemModel, root: int, va: u64) -> nat {
    match m.child(root, l1_of(va)) {
        None => 2,
        Some(p2) => match m.child(p2, l2_of(va)) {
            None => 1,
            Some(_) => 0,
        },
    }
}

/// Linking a new table keeps memory well formed, every address space as it is,
/// and every page of data.
proof fn lemma_linked(m: MemModel, p: int, s: int, q: int, pid: u8)
    requires
        m.wf(),
        0 <= p < m.pages.len(),
        1 <= crate::mem::level(m.pages[p].role) <= 2,
        0 <= s < TABLE_ENTRIES,
        m.pages[p].table[s] == 0,
        0 <= q < m.pages.len(),
        m.pages[q].owner is None,
    ensures
        linked(m, p, s, q, pid).wf(),
        linked(m, p, s, q, pid).free_count() + 1 == m.free_count(),
        linked(m, p, s, q, pid).linked_to(p, s, q),
        linked(m, p, s, q, pid).pages[q].table == crate::mem::zero_table(),
        linked(m, p, s, q, pid).pages[p].role == m.pages[p].role,
        p != q,
        forall|i: int|
            0 <= i < m.pages.len() && i != p && i != q ==> #[trigger] linked(
                m,
                p,
                s,
                q,
                pid,
            ).pages[i] == m.pages[i],
{
    let n = linked(m, p, s, q, pid);
    assert(m.page_ok(p));
    assert(m.page_ok(q));
    let a = crate::mem::with_data(m, q, Some(pid), crate::mem::zero_data());
    let b = crate::mem::with_table(
        a,
        q,
        Role::Table { level: crate::mem::level(m.pages[p].role) + 1, parent: p, slot: s },
    );
    crate::mem::lemma_count_update(m.pages, q, a.pages[q]);
    crate::mem::lemma_count_update(a.pages, q, b.pages[q]);
    crate::mem::lemma_count_update(b.pages, p, n.pages[p]);
    assert(n.linked_to(p, s, q));
    assert forall|j: int| 0 <= j < n.pages.len() implies #[trigger] n.page_ok(j) by {
        assert(m.page_ok(j));
        if 1 <= crate::mem::level(n.pages[j].role) <= 2 {
            assert forall|t: int| 0 <= t < TABLE_ENTRIES implies #[trigger] n.entry_ok(j, t) by {
                if j == p && t == s {
                    assert(n.linked_to(p, s, q));
                } else if j != q {
                    assert(m.entry_ok(j, t));
                    assert(n.pages[j].table[t] == m.pages[j].table[t]);
                    if m.pages[j].table[t] != 0 {
                        let c = choose|c: int| #[trigger] m.linked_to(j, t, c);
                        assert(c != q);
                        assert(n.linked_to(j, t, c));
                    }
                }
            }
        }
    }
}

/// Linking a new table changes no address space.
proof fn lemma_linked_pte(m: MemModel, p: int, s: int, q: int, pid: u8, root: int, va: u64)
    requires
        m.wf(),
        0 <= p < m.pages.len(),
        1 <= crate::mem::level(m.pages[p].role) <= 2,
        0 <= s < TABLE_ENTRIES,
        m.pages[p].table[s] == 0,
        0 <= q < m.pages.len(),
        m.pages[q].owner is None,
        m.is_table(root, 1),
    ensures
        pte_of(linked(m, p, s, q, pid), root, va) == pte_of(m, root, va),
{
    let n = linked(m, p, s, q, pid);
    lemma_linked(m, p, s, q, pid);
    assert(m.page_ok(root));
    assert(m.page_ok(q));
    lemma_child(m, root, l1_of(va));
    lemma_child(n, root, l1_of(va));
    match m.child(root, l1_of(va)) {
        None => {
            if n.child(root, l1_of(va)) is Some {
                let c = n.child(root, l1_of(va))->0;
                assert(root == p && l1_of(va) == s);
                lemma_child_is(n, p, s, q);
                assert(c == q);
                lemma_child(n, q, l2_of(va));
            }
        },
        Some(p2) => {
            assert(m.page_ok(p2));
            assert(n.child(root, l1_of(va)) == Some(p2));
            lemma_child(m, p2, l2_of(va));
            lemma_child(n, p2, l2_of(va));
            match m.child(p2, l2_of(va)) {
                None => {
                    if n.child(p2, l2_of(va)) is Some {
                        assert(p2 == p && l2_of(va) == s);
                        lemma_child_is(n, p, s, q);
                    }
                },
                Some(p3) => {
                    assert(m.page_ok(p3));
                    assert(n.child(p2, l2_of(va)) == Some(p3));
                    assert(p3 != p);
                },
            }
        },
    }
}

/// Writing a third-level entry keeps memory well formed.
proof fn lemma_entry_wf(m: MemModel, p3: int, s: int, e: u64)
    requires
        m.wf(),
        m.is_table(p3, 3),
        0 <= s < TABLE_ENTRIES,
    ensures
        crate::mem::with_entry(m, p3, s, e).wf(),
        crate::mem::with_entry(m, p3, s, e).free_count() == m.free_count(),
{
    let n = crate::mem::with_entry(m, p3, s, e);
    assert(m.page_ok(p3));
    crate::mem::lemma_count_update(m.pages, p3, n.pages[p3]);
    assert forall|j: int| 0 <= j < n.pages.len() implies #[trigger] n.page_ok(j) by {
        assert(m.page_ok(j));
        if 1 <= crate::mem::level(n.pages[j].role) <= 2 {
            assert forall|t: int| 0 <= t < TABLE_ENTRIES implies #[trigger] n.entry_ok(j, t) by {
                assert(m.entry_ok(j, t));
                if m.pages[j].table[t] != 0 {
                    let c = choose|c: int| #[trigger] m.linked_to(j, t, c);
                    assert(n.linked_to(j, t, c));
                }
            }
        }
    }
}

/// Writing the third-level entry for `va` changes the page of `va` in this
/// address space and nothing else.
proof fn lemma_entry_pte(m: MemModel, root: int, va: u64, p2: int, p3: int, e: u64, r: int, a: u64)
    requires
        m.wf(),
        m.is_table(root, 1),
        m.child(root, l1_of(va)) == Some(p2),
        m.child(p2, l2_of(va)) == Some(p3),
        m.is_table(r, 1),
    ensures
        pte_of(crate::mem::with_entry(m, p3, l3_of(va), e), r, a) == (if r == root && same_page(
            a,
            va,
        ) {
            e
        } else {
            pte_of(m, r, a)
        }),
{
    lemma_child(m, root, l1_of(va));
    lemma_child(m, p2, l2_of(va));
    let n = crate::mem::with_entry(m, p3, l3_of(va), e);
    lemma_entry_wf(m, p3, l3_of(va), e);
    assert(m.page_ok(p3));
    lemma_child(m, r, l1_of(a));
    lemma_child(n, r, l1_of(a));
    assert(n.child(r, l1_of(a)) == m.child(r, l1_of(a)));
    if let Some(c2) = m.child(r, l1_of(a)) {
        lemma_child(m, c2, l2_of(a));
        lemma_child(n, c2, l2_of(a));
        assert(n.child(c2, l2_of(a)) == m.child(c2, l2_of(a)));
    }
}

/// Nothing that a process can see changes from `m` to `n`, except that the page
/// of `va` in the address space `root` may have got a new entry: first-level
/// tables stay what they are, and owned pages of data keep their bytes.
pub open spec fn only_page_changed(m: MemModel, n: MemModel, root: int, va: u64) -> bool {
    &&& n.base == m.base
    &&& n.pages.len() == m.pages.len()
    &&& forall|r: int| #![trigger n.is_table(r, 1)] m.is_table(r, 1) ==> n.is_table(r, 1)
    &&& forall|i: int|
        0 <= i < m.pages.len() && m.pages[i].role is Data && m.pages[i].owner is Some
            ==> #[trigger] n.pages[i] == m.pages[i]
    &&& forall|r: int, a: u64|
        #![trigger pte_of(n, r, a)]
        m.is_table(r, 1) && !(r == root && same_page(a, va)) ==> pte_of(n, r, a) == pte_of(m, r, a)
}

/// Making sure of a table changes nothing that a process can see.
proof fn lemma_ensured(m: MemModel, p: int, s: int, pid: u8)
    requires
        m.wf(),
        0 <= p < m.pages.len(),
        1 <= crate::mem::level(m.pages[p].role) <= 2,
        0 <= s < TABLE_ENTRIES,
    ensures
        match ensured(m, p, s, pid) {
            None => m.child(p, s) is None && m.free_count() == 0,
            Some((n, q)) => {
                &&& n.wf()
                &&& n.child(p, s) == Some(q)
                &&& n.is_table(q, crate::mem::level(m.pages[p].role) + 1)
                &&& n.base == m.base
                &&& n.pages.len() == m.pages.len()
                &&& m.child(p, s) is Some ==> n == m
                &&& m.child(p, s) is None ==> n.free_count() + 1 == m.free_count()
                &&& m.child(p, s) is None ==> n.pages[q].table == crate::mem::zero_table()
                &&& forall|r: int| #![trigger n.is_table(r, 1)] m.is_table(r, 1) ==> n.is_table(r, 1)
                &&& forall|i: int|
                    0 <= i < m.pages.len() && m.pages[i].role is Data && m.pages[i].owner is Some
                        ==> #[trigger] n.pages[i] == m.pages[i]
                &&& forall|r: int, a: u64|
                    #![trigger pte_of(n, r, a)]
                    m.is_table(r, 1) ==> pte_of(n, r, a) == pte_of(m, r, a)
            },
        },
{
    lemma_child(m, p, s);
    crate::mem::lemma_free_page(m, 0);
    crate::mem::lemma_count_zero(m.pages);
    if m.child(p, s) is None && m.free_page(0) is Some {
        let q = m.free_page(0)->0;
        let n = linked(m, p, s, q, pid);
        lemma_linked(m, p, s, q, pid);
        lemma_child_is(n, p, s, q);
        assert(m.page_ok(q));
        assert(n.is_table(q, crate::mem::level(m.pages[p].role) + 1));
        assert forall|r: int| #![trigger n.is_table(r, 1)] m.is_table(r, 1) implies n.is_table(
            r,
            1,
        ) by {
            if r != p && r != q {
                assert(n.pages[r] == m.pages[r]);
            }
        }
        assert forall|r: int, a: u64|
            #![trigger pte_of(n, r, a)]
            m.is_table(r, 1) implies pte_of(n, r, a) == pte_of(m, r, a) by {
            lemma_linked_pte(m, p, s, q, pid, r, a);
        }
    }
}

/// Mapping a page: it succeeds exactly when there is memory for the missing
/// tables; then the page has its entry, and nothing else that a process can see
/// has changed.
pub proof fn law_map_page(m: MemModel, root: int, va: u64, e: u64, pid: u8)
    requires
        m.wf(),
        m.is_table(root, 1),
    ensures
        ({
            let (n, ok) = mapped(m, root, va, e, pid);
            &&& n.wf()
            &&& ok <==> missing_tables(m, root, va) <= m.free_count()
            &&& ok ==> pte_of(n, root, va) == e
            &&& ok ==> n.free_count() + missing_tables(m, root, va) == m.free_count()
            &&& !ok ==> n.free_count() == 0
            &&& !ok ==> pte_of(n, root, va) == pte_of(m, root, va)
            &&& only_page_changed(m, n, root, va)
        }),
{
    lemma_ensured(m, root, l1_of(va), pid);
    lemma_child(m, root, l1_of(va));
    crate::mem::lemma_count_zero(m.pages);
    if let Some((m1, p2)) = ensured(m, root, l1_of(va), pid) {
        lemma_ensured(m1, p2, l2_of(va), pid);
        lemma_child(m1, root, l1_of(va));
        lemma_child(m1, p2, l2_of(va));
        if let Some((m2, p3)) = ensured(m1, p2, l2_of(va), pid) {
            let n = crate::mem::with_entry(m2, p3, l3_of(va), e);
            lemma_entry_wf(m2, p3, l3_of(va), e);
            assert(m2.is_table(root, 1));
            lemma_child(m2, root, l1_of(va));
            assert(m2.child(root, l1_of(va)) == Some(p2)) by {
                lemma_kept_child(m1, p2, l2_of(va), pid, root, l1_of(va));
            }
            lemma_entry_pte(m2, root, va, p2, p3, e, root, va);
            assert forall|r: int, a: u64|
                #![trigger pte_of(n, r, a)]
                m.is_table(r, 1) && !(r == root && same_page(a, va)) implies pte_of(n, r, a)
                == pte_of(m, r, a) by {
                assert(m1.is_table(r, 1));
                assert(m2.is_table(r, 1));
                lemma_entry_pte(m2, root, va, p2, p3, e, r, a);
                assert(pte_of(m2, r, a) == pte_of(m1, r, a));
                assert(pte_of(m1, r, a) == pte_of(m, r, a));
            }
            assert forall|i: int|
                0 <= i < m.pages.len() && m.pages[i].role is Data && m.pages[i].owner is Some implies #[trigger] n.pages[i]
                == m.pages[i] by {
                assert(m1.pages[i] == m.pages[i]);
                assert(m2.pages[i] == m1.pages[i]);
            }
            assert forall|r: int| #![trigger n.is_table(r, 1)] m.is_table(r, 1) implies n.is_table(
                r,
                1,
            ) by {
                assert(m1.is_table(r, 1));
                assert(m2.is_table(r, 1));
            }
        } else {
            assert(pte_of(m1, root, va) == pte_of(m, root, va));
        }
    }
}

/// Making sure of one table keeps the entries of the others.
proof fn lemma_kept_child(m: MemModel, p: int, s: int, pid: u8, r: int, t: int)
    requires
        m.wf(),
        0 <= p < m.pages.len(),
        1 <= crate::mem::level(m.pages[p].role) <= 2,
        0 <= s < TABLE_ENTRIES,
        0 <= r < m.pages.len(),
        1 <= crate::mem::level(m.pages[r].role) <= 2,
        0 <= t < TABLE_ENTRIES,
        m.child(r, t) is Some,
    ensures
        ensured(m, p, s, pid) matches Some((n, q)) ==> n.child(r, t) == m.child(r, t),
{
    lemma_child(m, p, s);
    lemma_child(m, r, t);
    crate::mem::lemma_free_page(m, 0);
    if m.child(p, s) is None && m.free_page(0) is Some {
        let q = m.free_page(0)->0;
        lemma_linked(m, p, s, q, pid);
        assert(m.page_ok(r));
        assert(m.page_ok(q));
    }
}

/// The page of `va` loses its entry. Only meaningful where the tables are there.
pub open spec fn unmapped(m: MemModel, root: int, va: u64) -> MemModel {
    crate::mem::with_entry(
        m,
        m.child(m.child(root, l1_of(va))->0, l2_of(va))->0,
        l3_of(va),
        0,
    )
}

/// Unmapping a page: afterwards it has no translation, and nothing else that a
/// process can see has changed.
pub proof fn law_unmap_page(m: MemModel, root: int, va: u64)
    requires
        m.wf(),
        m.is_table(root, 1),
        missing_tables(m, root, va) == 0,
    ensures
        unmapped(m, root, va).wf(),
        translation(unmapped(m, root, va), root, va) is None,
        only_page_changed(m, unmapped(m, root, va), root, va),
{
    let p2 = m.child(root, l1_of(va))->0;
    let p3 = m.child(p2, l2_of(va))->0;
    let n = unmapped(m, root, va);
    lemma_child(m, root, l1_of(va));
    lemma_child(m, p2, l2_of(va));
    lemma_entry_wf(m, p3, l3_of(va), 0);
    lemma_entry_pte(m, root, va, p2, p3, 0, root, va);
    lemma_empty_entry();
    assert forall|r: int, a: u64|
        #![trigger pte_of(n, r, a)]
        m.is_table(r, 1) && !(r == root && same_page(a, va)) implies pte_of(n, r, a) == pte_of(
        m,
        r,
        a,
    ) by {
        lemma_entry_pte(m, root, va, p2, p3, 0, r, a);
    }
}

// ---------------------------------------------------------------------------
// Address spaces
// ---------------------------------------------------------------------------

/// The address space of a process.
#[derive(Clone, Copy, PartialEq, Eq, Structural, Debug)]
pub struct MemoryMapping {
    /// Physical address of the first-level table.
    pub ttbr0: u64,
    /// The process, which is also the tag of the address space.
    pub pid: u8,
}

/// The entry that maps a page to `phys`.
pub open spec fn page_entry(phys: u64, flags: MemoryFlags, user: bool) -> u64 {
    (phys & PTE_ADDR_MASK) | pte_bits(flags, user)
}

/// The entry that maps a page holds the page's address and counts.
proof fn lemma_page_entry(phys: u64, flags: MemoryFlags, user: bool)
    ensures
        page_entry(phys, flags, user) & PTE_VALID != 0,
        page_entry(phys, flags, user) & PTE_ADDR_MASK == phys & PTE_ADDR_MASK,
{
    lemma_pte_bits(flags, user);
    let bits = pte_bits(flags, user);
    assert(bits & 1u64 == 1 && bits & 0x0000_FFFF_FFFF_C000u64 == 0 ==> ((phys
        & 0x0000_FFFF_FFFF_C000u64) | bits) & 1 != 0 && ((phys & 0x0000_FFFF_FFFF_C000u64) | bits)
        & 0x0000_FFFF_FFFF_C000u64 == phys & 0x0000_FFFF_FFFF_C000u64) by (bit_vector);
}

/// The entry for a page of memory counts and holds its address.
pub proof fn lemma_entry_of_page(m: MemModel, q: int, flags: MemoryFlags)
    requires
        m.wf(),
        0 <= q < m.pages.len(),
    ensures
        page_entry(m.addr(q) as u64, flags, true) & PTE_VALID != 0,
        page_entry(m.addr(q) as u64, flags, true) & PTE_ADDR_MASK == m.addr(q),
{
    lemma_addr(m, q);
    lemma_link(m.addr(q) as u64);
    lemma_page_entry(m.addr(q) as u64, flags, true);
}

/// A page that was mapped translates: its physical address is the page it was
/// mapped to, plus the offset.
pub proof fn law_mapped_translates(
    m: MemModel,
    root: int,
    va: u64,
    phys: u64,
    flags: MemoryFlags,
    user: bool,
    pid: u8,
)
    requires
        m.wf(),
        m.is_table(root, 1),
        missing_tables(m, root, va) <= m.free_count(),
    ensures
        ({
            let n = mapped(m, root, va, page_entry(phys, flags, user), pid).0;
            translation(n, root, va) == Some((phys & PTE_ADDR_MASK) + va % PAGE_SIZE)
        }),
{
    law_map_page(m, root, va, page_entry(phys, flags, user), pid);
    lemma_page_entry(phys, flags, user);
}

/// A page that was mapped has the attributes that were asked for, as the hardware finds them
/// in the entry at the end of its walk, beside the address of the page.
pub proof fn law_mapped_has_its_attributes(
    m: MemModel,
    root: int,
    va: u64,
    phys: u64,
    flags: MemoryFlags,
    user: bool,
    pid: u8,
)
    requires
        m.wf(),
        m.is_table(root, 1),
        missing_tables(m, root, va) <= m.free_count(),
        phys % 0x4000 == 0,
        phys < 0x1_0000_0000_0000,
    ensures
        ({
            let e = pte_of(mapped(m, root, va, page_entry(phys, flags, user), pid).0, root, va);
            &&& e & 0x0000_FFFF_FFFF_C000 == phys
            &&& e & 0xFFFF_0000_0000_3FFF == pte_bits(flags, user) & 0xFFFF_0000_0000_3FFF
        }),
{
    law_map_page(m, root, va, page_entry(phys, flags, user), pid);
    lemma_page_entry(phys, flags, user);
    let bits = pte_bits(flags, user);
    assert(phys % 0x4000 == 0 && phys < 0x1_0000_0000_0000u64 ==> phys & 0x0000_FFFF_FFFF_C000u64
        == phys && ((phys & 0x0000_FFFF_FFFF_C000u64) | bits) & 0xFFFF_0000_0000_3FFFu64 == bits
        & 0xFFFF_0000_0000_3FFFu64) by (bit_vector);
}

impl MemoryMapping {
    /// The page of the first-level table.
    pub open spec fn root(self, m: MemModel) -> int {
        m.index(self.ttbr0 as int)
    }

    /// The mapping's root is a first-level table in `m`.
    pub open spec fn wf(self, m: MemModel) -> bool {
        &&& m.is_table(self.root(m), 1)
        &&& self.ttbr0 == m.addr(self.root(m))
    }

    /// The process in whose name pages are taken: process 1 for a mapping that
    /// belongs to none.
    pub open spec fn owner(self) -> u8 {
        if self.pid == 0 {
            1
        } else {
            self.pid
        }
    }

    /// The mapping that the translation and context registers describe.
    pub fn from_registers(ttbr0: u64, context: u64) -> (r: MemoryMapping)
        ensures
            r.ttbr0 == ttbr0 & PTE_ADDR_MASK,
            r.pid == context % 256,
    {
        MemoryMapping { ttbr0: ttbr0 & PTE_ADDR_MASK, pid: (context % 256) as u8 }
    }

    /// The process of this mapping.
    pub fn get_pid(self) -> (r: u8)
        ensures
            r == self.owner(),
    {
        if self.pid == 0 {
            1
        } else {
            self.pid
        }
    }

    /// Physical address of the first-level table.
    pub fn ttbr0(&self) -> (r: u64)
        ensures
            r == self.ttbr0,
    {
        self.ttbr0
    }

    /// The value for the translation register: the table's address, with the
    /// process as the tag in the upper bits.
    pub fn activate(self) -> (r: u64)
        requires
            self.ttbr0 < PHYS_LIMIT,
        ensures
            r == self.ttbr0 + self.pid * PHYS_LIMIT,
    {
        assert(self.pid * PHYS_LIMIT <= 255 * PHYS_LIMIT);
        self.ttbr0 + self.pid as u64 * PHYS_LIMIT
    }

    /// Gives the process an empty address space of its own.
    pub fn allocate(&mut self, mm: &mut MemoryManager, pid: u8) -> (r: Result<(), Error>)
        requires
            old(mm).wf(),
        ensures
            final(mm).wf(),
            match r {
                Ok(()) => {
                    &&& old(mm)@.free_page(0) matches Some(q) && final(mm)@
                        == crate::mem::with_table(
                        crate::mem::with_data(
                            old(mm)@,
                            q,
                            Some(pid),
                            crate::mem::zero_data(),
                        ),
                        q,
                        Role::Root,
                    ) && final(self).root(final(mm)@) == q
                    &&& final(self).wf(final(mm)@)
                    &&& final(self).pid == pid
                },
                Err(e) => e == Error::OutOfMemory && old(mm)@.free_page(0) is None && final(mm)@
                    == old(mm)@ && *final(self) == *old(self),
            },
    {
        let q: usize = match mm.alloc_page(pid) {
            Ok(q) => q,
            Err(e) => {
                return Err(e);
            },
        };
        mm.make_table(q, Ghost(Role::Root));
        proof {
            lemma_addr(mm@, q as int);
        }
        assert(q * PAGE_SIZE <= mm@.pages.len() * PAGE_SIZE) by (nonlinear_arith)
            requires
                q <= mm@.pages.len(),
        ;
        self.ttbr0 = mm.base + q as u64 * PAGE_SIZE;
        self.pid = pid;
        Ok(())
    }

    /// The table at entry `s` of table `p`, made if there is none.
    fn ensure_table(&self, mm: &mut MemoryManager, p: usize, s: usize) -> (r: Result<usize, Error>)
        requires
            old(mm).wf(),
            p < old(mm)@.pages.len(),
            1 <= crate::mem::level(old(mm)@.pages[p as int].role) <= 2,
            s < TABLE_ENTRIES,
        ensures
            final(mm).wf(),
            match r {
                Ok(q) => ensured(old(mm)@, p as int, s as int, self.owner()) == Some(
                    (final(mm)@, q as int),
                ) && q < final(mm)@.pages.len(),
                Err(e) => e == Error::OutOfMemory && ensured(
                    old(mm)@,
                    p as int,
                    s as int,
                    self.owner(),
                ) is None && final(mm)@ == old(mm)@,
            },
    {
        let ghost m = mm@;
        proof {
            lemma_child(m, p as int, s as int);
        }
        let entry: u64 = mm.read_entry(p, s);
        if entry & PTE_VALID != 0 && entry & PTE_TABLE != 0 {
            let next_pa: u64 = entry & PTE_ADDR_MASK;
            let ghost q = m.child(p as int, s as int)->0;
            proof {
                lemma_addr(m, q);
                lemma_below(m, q);
            }
            return Ok(mm.page_at(next_pa));
        }
        let q: usize = match mm.alloc_page(self.get_pid()) {
            Ok(q) => q,
            Err(e) => {
                return Err(e);
            },
        };
        let ghost l = crate::mem::level(m.pages[p as int].role) + 1;
        let ghost role = Role::Table { level: l, parent: p as int, slot: s as int };
        proof {
            assert(m.page_ok(p as int));
            lemma_linked(m, p as int, s as int, q as int, self.owner());
            lemma_addr(m, q as int);
            lemma_link(m.addr(q as int) as u64);
            lemma_below(m, q as int);
        }
        mm.make_table(q, Ghost(role));
        let pa: u64 = mm.base + q as u64 * PAGE_SIZE;
        let desc: u64 = (pa & PTE_ADDR_MASK) | PTE_VALID | PTE_TABLE;
        mm.write_entry(p, s, desc);
        Ok(q)
    }

    /// Maps a page. The physical address counts only down to its page.
    pub fn map_page(
        &self,
        mm: &mut MemoryManager,
        phys: u64,
        va: u64,
        flags: MemoryFlags,
        map_user: bool,
    ) -> (r: Result<(), Error>)
        requires
            old(mm).wf(),
            self.wf(old(mm)@),
        ensures
            final(mm).wf(),
            ({
                let (n, ok) = mapped(
                    old(mm)@,
                    self.root(old(mm)@),
                    va,
                    page_entry(phys, flags, map_user),
                    self.owner(),
                );
                &&& final(mm)@ == n
                &&& r == (if ok {
                    Ok::<(), Error>(())
                } else {
                    Err::<(), Error>(Error::OutOfMemory)
                })
            }),
            self.wf(final(mm)@),
    {
        let ghost m = mm@;
        let ghost e = page_entry(phys, flags, map_user);
        let ghost root_page = self.root(m);
        proof {
            law_map_page(m, root_page, va, e, self.owner());
            lemma_ensured(m, root_page, l1_of(va), self.owner());
            lemma_below(m, root_page);
        }
        let root: usize = mm.page_at(self.ttbr0);
        let p2: usize = match self.ensure_table(mm, root, l1_index(va)) {
            Ok(p) => p,
            Err(e) => {
                return Err(e);
            },
        };
        proof {
            lemma_ensured(mm@, p2 as int, l2_of(va), self.owner());
        }
        let p3: usize = match self.ensure_table(mm, p2, l2_index(va)) {
            Ok(p) => p,
            Err(e) => {
                return Err(e);
            },
        };
        proof {
            lemma_entry_wf(mm@, p3 as int, l3_of(va), e);
        }
        let entry: u64 = (phys & PTE_ADDR_MASK) | flags_to_pte(flags, map_user);
        mm.write_entry(p3, l3_index(va), entry);
        Ok(())
    }

    /// The third-level table for `va`, if there is one.
    fn walk(&self, mm: &MemoryManager, va: u64) -> (r: Option<usize>)
        requires
            mm.wf(),
            self.wf(mm@),
        ensures
            match r {
                None => missing_tables(mm@, self.root(mm@), va) > 0,
                Some(p3) => missing_tables(mm@, self.root(mm@), va) == 0 && mm@.child(
                    mm@.child(self.root(mm@), l1_of(va))->0,
                    l2_of(va),
                ) == Some(p3 as int) && mm@.is_table(p3 as int, 3),
            },
    {
        let ghost m = mm@;
        let ghost r0 = self.root(m);
        proof {
            lemma_below(m, r0);
            lemma_child(m, r0, l1_of(va));
        }
        let root: usize = mm.page_at(self.ttbr0);
        let l1: u64 = mm.read_entry(root, l1_index(va));
        if l1 & PTE_VALID == 0 {
            return None;
        }
        let ghost q2 = m.child(r0, l1_of(va))->0;
        proof {
            lemma_below(m, q2);
            lemma_child(m, q2, l2_of(va));
        }
        let p2: usize = mm.page_at(l1 & PTE_ADDR_MASK);
        let l2: u64 = mm.read_entry(p2, l2_index(va));
        if l2 & PTE_VALID == 0 {
            return None;
        }
        let ghost q3 = m.child(q2, l2_of(va))->0;
        proof {
            lemma_below(m, q3);
        }
        let p3: usize = mm.page_at(l2 & PTE_ADDR_MASK);
        Some(p3)
    }

    /// Unmaps a page. Fails when there is no third-level table for it.
    pub fn unmap_page(&self, mm: &mut MemoryManager, va: u64) -> (r: Result<(), Error>)
        requires
            old(mm).wf(),
            self.wf(old(mm)@),
        ensures
            final(mm).wf(),
            self.wf(final(mm)@),
            if missing_tables(old(mm)@, self.root(old(mm)@), va) == 0 {
                r == Ok::<(), Error>(()) && final(mm)@ == unmapped(
                    old(mm)@,
                    self.root(old(mm)@),
                    va,
                )
            } else {
                r == Err::<(), Error>(Error::BadAddress) && final(mm)@ == old(mm)@
            },
    {
        match self.walk(mm, va) {
            None => Err(Error::BadAddress),
            Some(p3) => {
                proof {
                    lemma_entry_wf(mm@, p3 as int, l3_of(va), 0);
                }
                mm.write_entry(p3, l3_index(va), 0);
                Ok(())
            },
        }
    }

    /// The physical address of `va`.
    pub fn virt_to_phys(&self, mm: &MemoryManager, va: u64) -> (r: Result<u64, Error>)
        requires
            mm.wf(),
            self.wf(mm@),
        ensures
            match r {
                Ok(pa) => translation(mm@, self.root(mm@), va) == Some(pa as int),
                Err(e) => e == Error::BadAddress && translation(mm@, self.root(mm@), va) is None,
            },
    {
        proof {
            lemma_empty_entry();
            lemma_child(mm@, self.root(mm@), l1_of(va));
            if mm@.child(self.root(mm@), l1_of(va)) is Some {
                lemma_child(mm@, mm@.child(self.root(mm@), l1_of(va))->0, l2_of(va));
            }
        }
        match self.walk(mm, va) {
            None => Err(Error::BadAddress),
            Some(p3) => {
                let l3: u64 = mm.read_entry(p3, l3_index(va));
                if l3 & PTE_VALID == 0 {
                    return Err(Error::BadAddress);
                }
                let page: u64 = l3 & PTE_ADDR_MASK;
                assert(l3 & 0x0000_FFFF_FFFF_C000u64 <= 0x0000_FFFF_FFFF_C000u64) by (bit_vector);
                Ok(page + va % PAGE_SIZE)
            },
        }
    }

    /// True when `va` is not mapped.
    pub fn address_available(&self, mm: &MemoryManager, va: u64) -> (r: bool)
        requires
            mm.wf(),
            self.wf(mm@),
        ensures
            r == translation(mm@, self.root(mm@), va) is None,
    {
        self.virt_to_phys(mm, va).is_err()
    }

    /// True when `va` lies below the end of the user area and is mapped.
    pub fn address_user_accessible(&self, mm: &MemoryManager, va: u64, user_area_end: u64) -> (r:
        bool)
        requires
            mm.wf(),
            self.wf(mm@),
        ensures
            r == (va < user_area_end && translation(mm@, self.root(mm@), va) is Some),
    {
        if va >= user_area_end {
            return false;
        }
        self.virt_to_phys(mm, va).is_ok()
    }
}

/// Page indices fit the machine and their addresses come back.
proof fn lemma_below(m: MemModel, q: int)
    requires
        m.wf(),
        0 <= q < m.pages.len(),
    ensures
        m.base <= m.addr(q) < PHYS_LIMIT,
        (m.addr(q) - m.base) / (PAGE_SIZE as int) == q,
{
    lemma_addr(m, q);
    assert(m.addr(q) - m.base == q * PAGE_SIZE);
    assert((q * PAGE_SIZE) / (PAGE_SIZE as int) == q) by {
        vstd::arithmetic::div_mod::lemma_div_by_multiple(q, PAGE_SIZE as int);
    }
}

/// The tables on the way to a mapped page are there.
proof fn lemma_translation_tables(m: MemModel, root: int, va: u64)
    requires
        translation(m, root, va) is Some,
    ensures
        missing_tables(m, root, va) == 0,
{
    lemma_empty_entry();
}

/// A root stays a root when one page changes.
proof fn lemma_root_kept(m: MemModel, n: MemModel, root: int, va: u64, space: MemoryMapping)
    requires
        only_page_changed(m, n, root, va),
        space.wf(m),
    ensures
        space.wf(n),
        space.root(n) == space.root(m),
{
    assert(n.is_table(space.root(m), 1));
}

/// The flags with which memory passes to another process.
pub open spec fn passed_flags(mutable: bool) -> MemoryFlags {
    MemoryFlags { writable: mutable, executable: false, device: false }
}

impl MemoryMapping {
    /// Moves a page to another address space, where it becomes writable.
    pub fn move_page(
        &self,
        mm: &mut MemoryManager,
        src: u64,
        dest_space: &MemoryMapping,
        dest: u64,
    ) -> (r: Result<(), Error>)
        requires
            old(mm).wf(),
            self.wf(old(mm)@),
            dest_space.wf(old(mm)@),
        ensures
            final(mm).wf(),
            self.wf(final(mm)@),
            dest_space.wf(final(mm)@),
            match translation(old(mm)@, self.root(old(mm)@), src) {
                None => r == Err::<(), Error>(Error::BadAddress) && final(mm)@ == old(mm)@,
                Some(pa) => {
                    let (n, ok) = mapped(
                        unmapped(old(mm)@, self.root(old(mm)@), src),
                        dest_space.root(old(mm)@),
                        dest,
                        page_entry(pa as u64, passed_flags(true), true),
                        dest_space.owner(),
                    );
                    &&& final(mm)@ == n
                    &&& r == (if ok {
                        Ok::<(), Error>(())
                    } else {
                        Err::<(), Error>(Error::OutOfMemory)
                    })
                },
            },
    {
        let phys: u64 = match self.virt_to_phys(mm, src) {
            Ok(pa) => pa,
            Err(e) => {
                return Err(e);
            },
        };
        let ghost m = mm@;
        proof {
            lemma_translation_tables(m, self.root(m), src);
            law_unmap_page(m, self.root(m), src);
            let u = unmapped(m, self.root(m), src);
            lemma_root_kept(m, u, self.root(m), src, *self);
            lemma_root_kept(m, u, self.root(m), src, *dest_space);
            let e = page_entry(phys, passed_flags(true), true);
            law_map_page(u, dest_space.root(m), dest, e, dest_space.owner());
            lemma_root_kept(
                u,
                mapped(u, dest_space.root(m), dest, e, dest_space.owner()).0,
                dest_space.root(m),
                dest,
                *self,
            );
        }
        match self.unmap_page(mm, src) {
            Ok(()) => {},
            Err(e) => {
                return Err(e);
            },
        }
        dest_space.map_page(mm, phys, dest, MemoryFlags::w(), true)
    }

    /// Lends a page to another address space, writable or not; it stays mapped
    /// here.
    pub fn lend_page(
        &self,
        mm: &mut MemoryManager,
        src: u64,
        dest_space: &MemoryMapping,
        dest: u64,
        mutable: bool,
    ) -> (r: Result<(), Error>)
        requires
            old(mm).wf(),
            self.wf(old(mm)@),
            dest_space.wf(old(mm)@),
        ensures
            final(mm).wf(),
            self.wf(final(mm)@),
            dest_space.wf(final(mm)@),
            match translation(old(mm)@, self.root(old(mm)@), src) {
                None => r == Err::<(), Error>(Error::BadAddress) && final(mm)@ == old(mm)@,
                Some(pa) => {
                    let (n, ok) = mapped(
                        old(mm)@,
                        dest_space.root(old(mm)@),
                        dest,
                        page_entry(pa as u64, passed_flags(mutable), true),
                        dest_space.owner(),
                    );
                    &&& final(mm)@ == n
                    &&& r == (if ok {
                        Ok::<(), Error>(())
                    } else {
                        Err::<(), Error>(Error::OutOfMemory)
                    })
                },
            },
    {
        let phys: u64 = match self.virt_to_phys(mm, src) {
            Ok(pa) => pa,
            Err(e) => {
                return Err(e);
            },
        };
        let ghost m = mm@;
        proof {
            let e = page_entry(phys, passed_flags(mutable), true);
            law_map_page(m, dest_space.root(m), dest, e, dest_space.owner());
            lemma_root_kept(
                m,
                mapped(m, dest_space.root(m), dest, e, dest_space.owner()).0,
                dest_space.root(m),
                dest,
                *self,
            );
        }
        let flags: MemoryFlags = if mutable { MemoryFlags::w() } else { MemoryFlags::empty() };
        dest_space.map_page(mm, phys, dest, flags, true)
    }

    /// Returns a lent page: the borrower's mapping goes, the lender's is still
    /// there.
    pub fn return_page(&self, mm: &mut MemoryManager, src: u64) -> (r: Result<(), Error>)
        requires
            old(mm).wf(),
            self.wf(old(mm)@),
        ensures
            final(mm).wf(),
            self.wf(final(mm)@),
            if missing_tables(old(mm)@, self.root(old(mm)@), src) == 0 {
                r == Ok::<(), Error>(()) && final(mm)@ == unmapped(
                    old(mm)@,
                    self.root(old(mm)@),
                    src,
                )
            } else {
                r == Err::<(), Error>(Error::BadAddress) && final(mm)@ == old(mm)@
            },
    {
        self.unmap_page(mm, src)
    }

    /// Backs `va` with a fresh zero page, writable for user code, unless it is
    /// mapped already.
    pub fn ensure_page_exists(&self, mm: &mut MemoryManager, va: u64) -> (r: Result<(), Error>)
        requires
            old(mm).wf(),
            self.wf(old(mm)@),
        ensures
            final(mm).wf(),
            self.wf(final(mm)@),
            if translation(old(mm)@, self.root(old(mm)@), va) is Some {
                r == Ok::<(), Error>(()) && final(mm)@ == old(mm)@
            } else {
                match old(mm)@.free_page(0) {
                    None => r == Err::<(), Error>(Error::OutOfMemory) && final(mm)@ == old(mm)@,
                    Some(q) => {
                        let (n, ok) = mapped(
                            crate::mem::with_data(
                                old(mm)@,
                                q,
                                Some(self.owner()),
                                crate::mem::zero_data(),
                            ),
                            self.root(old(mm)@),
                            va,
                            page_entry(old(mm)@.addr(q) as u64, passed_flags(true), true),
                            self.owner(),
                        );
                        &&& final(mm)@ == n
                        &&& r == (if ok {
                            Ok::<(), Error>(())
                        } else {
                            Err::<(), Error>(Error::OutOfMemory)
                        })
                    },
                }
            },
    {
        if self.virt_to_phys(mm, va).is_ok() {
            return Ok(());
        }
        let ghost m = mm@;
        let q: usize = match mm.alloc_page(self.get_pid()) {
            Ok(q) => q,
            Err(e) => {
                return Err(e);
            },
        };
        proof {
            assert(m.page_ok(q as int));
            lemma_below(m, q as int);
            assert(mm@.is_table(self.root(m), 1));
        }
        let phys: u64 = mm.base + q as u64 * PAGE_SIZE;
        self.map_page(mm, phys, va, MemoryFlags::w(), true)
    }
}

/// A moved page is found at its new place, with the same physical page, and no
/// longer at the old one.
pub proof fn law_move_page(m: MemModel, a: int, src: u64, b: int, dest: u64, pid: u8)
    requires
        m.wf(),
        m.is_table(a, 1),
        m.is_table(b, 1),
        translation(m, a, src) is Some,
        !(a == b && same_page(src, dest)),
        missing_tables(unmapped(m, a, src), b, dest) <= unmapped(m, a, src).free_count(),
    ensures
        ({
            let pa = translation(m, a, src)->0;
            let n = mapped(
                unmapped(m, a, src),
                b,
                dest,
                page_entry(pa as u64, passed_flags(true), true),
                pid,
            ).0;
            &&& translation(n, a, src) is None
            &&& translation(n, b, dest) == Some(
                (pa as u64 & PTE_ADDR_MASK) + dest % PAGE_SIZE,
            )
        }),
{
    lemma_translation_tables(m, a, src);
    law_unmap_page(m, a, src);
    let u = unmapped(m, a, src);
    let pa = translation(m, a, src)->0;
    let e = page_entry(pa as u64, passed_flags(true), true);
    assert(u.is_table(b, 1));
    assert(u.is_table(a, 1));
    law_map_page(u, b, dest, e, pid);
    law_mapped_translates(u, b, dest, pa as u64, passed_flags(true), true, pid);
    let n = mapped(u, b, dest, e, pid).0;
    assert(pte_of(n, a, src) == pte_of(u, a, src));
}

/// What a process gets from another it may use as data: it can write a page that was moved to
/// it or lent to it mutably, and no other (bit 7 is set for those); it can execute none (bit 54)
/// and its own code can read each (bit 6).
pub proof fn law_passed_rights(m: MemModel, b: int, dest: u64, pa: u64, mutable: bool, pid: u8)
    requires
        m.wf(),
        m.is_table(b, 1),
        missing_tables(m, b, dest) <= m.free_count(),
    ensures
        ({
            let e = pte_of(
                mapped(m, b, dest, page_entry(pa, passed_flags(mutable), true), pid).0,
                b,
                dest,
            );
            &&& e & 1 == 1
            &&& e & 0x80 == 0 <==> mutable
            &&& e & 0x40 != 0
            &&& e & 0x40_0000_0000_0000 != 0
            &&& e & 0x20_0000_0000_0000 != 0
        }),
{
    let f = passed_flags(mutable);
    law_map_page(m, b, dest, page_entry(pa, f, true), pid);
    law_page_attributes(f, true);
    let bits = pte_bits(f, true);
    assert(bits & 3 == 3 ==> ((pa & 0x0000_FFFF_FFFF_C000u64) | bits) & 1 == 1) by (bit_vector);
    assert(((pa & 0x0000_FFFF_FFFF_C000u64) | bits) & 0x80 == bits & 0x80 && ((pa
        & 0x0000_FFFF_FFFF_C000u64) | bits) & 0x40 == bits & 0x40 && ((pa
        & 0x0000_FFFF_FFFF_C000u64) | bits) & 0x40_0000_0000_0000 == bits & 0x40_0000_0000_0000
        && ((pa & 0x0000_FFFF_FFFF_C000u64) | bits) & 0x20_0000_0000_0000 == bits
        & 0x20_0000_0000_0000) by (bit_vector);
}

/// A lent page stays mapped for the lender, and the borrower sees the same
/// physical page; returning it takes only the borrower's mapping away.
pub proof fn law_lend_and_return(
    m: MemModel,
    a: int,
    src: u64,
    b: int,
    dest: u64,
    mutable: bool,
    pid: u8,
)
    requires
        m.wf(),
        m.is_table(a, 1),
        m.is_table(b, 1),
        translation(m, a, src) is Some,
        !(a == b && same_page(src, dest)),
        missing_tables(m, b, dest) <= m.free_count(),
    ensures
        ({
            let pa = translation(m, a, src)->0;
            let n = mapped(m, b, dest, page_entry(pa as u64, passed_flags(mutable), true), pid).0;
            let back = unmapped(n, b, dest);
            &&& translation(n, a, src) == Some(pa)
            &&& translation(n, b, dest) == Some((pa as u64 & PTE_ADDR_MASK) + dest % PAGE_SIZE)
            &&& translation(back, a, src) == Some(pa)
            &&& translation(back, b, dest) is None
        }),
{
    let pa = translation(m, a, src)->0;
    let e = page_entry(pa as u64, passed_flags(mutable), true);
    law_map_page(m, b, dest, e, pid);
    law_mapped_translates(m, b, dest, pa as u64, passed_flags(mutable), true, pid);
    let n = mapped(m, b, dest, e, pid).0;
    assert(pte_of(n, a, src) == pte_of(m, a, src));
    assert(n.is_table(a, 1));
    assert(n.is_table(b, 1));
    lemma_translation_tables(n, b, dest);
    law_unmap_page(n, b, dest);
    let back = unmapped(n, b, dest);
    assert(pte_of(back, a, src) == pte_of(n, a, src));
}

/// Entries depend on the tables alone: with the same tables, every address
/// space is the same.
pub proof fn lemma_tables_agree(m: MemModel, n: MemModel, root: int, va: u64)
    requires
        m.wf(),
        n.wf(),
        n.base == m.base,
        n.pages.len() == m.pages.len(),
        forall|i: int|
            0 <= i < m.pages.len() && crate::mem::level(m.pages[i].role) > 0 ==> #[trigger] n.pages[i]
                == m.pages[i],
        m.is_table(root, 1),
    ensures
        n.is_table(root, 1),
        pte_of(n, root, va) == pte_of(m, root, va),
{
    assert(n.pages[root] == m.pages[root]);
    lemma_child(m, root, l1_of(va));
    if let Some(p2) = m.child(root, l1_of(va)) {
        assert(n.pages[p2] == m.pages[p2]);
        lemma_child(m, p2, l2_of(va));
        if let Some(p3) = m.child(p2, l2_of(va)) {
            assert(n.pages[p3] == m.pages[p3]);
        }
    }
}

/// Bytes in a cache line.
pub const CACHE_LINE: u64 = 64;

/// The `i`-th cache line of a range.
pub open spec fn cache_line(start: u64, i: int) -> int {
    start / CACHE_LINE * CACHE_LINE + i * CACHE_LINE
}

/// The cache lines that a maintenance operation on a range visits: from the
/// line of its first byte, every line that starts before its end.
pub fn cache_lines(start: u64, len: u64) -> (lines: Vec<u64>)
    requires
        start + len + CACHE_LINE <= u64::MAX,
    ensures
        forall|i: int| 0 <= i < lines@.len() ==> #[trigger] lines@[i] == cache_line(start, i),
        forall|i: int| 0 <= i < lines@.len() ==> cache_line(start, i) < start + len,
        cache_line(start, lines@.len() as int) >= start + len,
{
    let end: u64 = start + len;
    let mut addr: u64 = start / CACHE_LINE * CACHE_LINE;
    let mut lines: Vec<u64> = Vec::new();
    while addr < end
        invariant
            end == start + len,
            start + len + CACHE_LINE <= u64::MAX,
            addr == cache_line(start, lines@.len() as int),
            forall|i: int| 0 <= i < lines@.len() ==> #[trigger] lines@[i] == cache_line(start, i),
            forall|i: int| 0 <= i < lines@.len() ==> cache_line(start, i) < start + len,
        decreases end + CACHE_LINE - addr,
    {
        lines.push(addr);
        addr = addr + CACHE_LINE;
    }
    lines
}

} // verus!
