//! The ELF64 format and what loading a file does to memory.
use crate::arch::aarch64::elf::{
    AslrRange, ElfLoadResult, DYN_SIZE, EHDR_SIZE, EM_AARCH64, ET_DYN, ET_EXEC, PF_W, PF_X,
    PHDR_SIZE, PT_DYNAMIC, PT_LOAD, RELA_SIZE, R_AARCH64_RELATIVE,
};
use crate::arch::aarch64::mem;
use crate::arch::aarch64::mem::MemoryFlags;
use crate::bytes;
use crate::error::Error;
use crate::mem as phys;
use crate::mem::{MemModel, PAGE_SIZE, PTE_ADDR_MASK};
use vstd::prelude::*;

verus! {

// ---------------------------------------------------------------------------
// The file
// ---------------------------------------------------------------------------

/// A 64-bit little-endian AArch64 executable or position-independent
/// executable.
pub open spec fn header_ok(f: Seq<u8>) -> bool {
    &&& f.len() >= EHDR_SIZE
    &&& f[0] == 0x7f && f[1] == 69 && f[2] == 76 && f[3] == 70
    &&& f[4] == 2
    &&& f[5] == 1
    &&& bytes::le16_at(f, 18) == EM_AARCH64
    &&& bytes::le16_at(f, 16) == ET_DYN || bytes::le16_at(f, 16) == ET_EXEC
}

/// Position-independent.
pub open spec fn is_pie(f: Seq<u8>) -> bool {
    bytes::le16_at(f, 16) == ET_DYN
}

/// Number of program headers.
pub open spec fn phnum(f: Seq<u8>) -> int {
    bytes::le16_at(f, 56)
}

/// Offset of program header `i`.
pub open spec fn phdr_off(f: Seq<u8>, i: int) -> int {
    bytes::le64_at(f, 32) + i * PHDR_SIZE
}

/// The program headers lie in the file.
pub open spec fn phdrs_ok(f: Seq<u8>) -> bool {
    phdr_off(f, phnum(f)) <= f.len()
}

/// A program header.
#[derive(Clone, Copy)]
pub struct Phdr {
    pub typ: u32,
    pub flags: u32,
    pub offset: u64,
    pub vaddr: u64,
    pub filesz: u64,
    pub memsz: u64,
}

/// Program header `i`.
pub open spec fn phdr(f: Seq<u8>, i: int) -> Phdr {
    let at = phdr_off(f, i);
    Phdr {
        typ: bytes::le32_at(f, at) as u32,
        flags: bytes::le32_at(f, at + 4) as u32,
        offset: bytes::le64_at(f, at + 8) as u64,
        vaddr: bytes::le64_at(f, at + 16) as u64,
        filesz: bytes::le64_at(f, at + 32) as u64,
        memsz: bytes::le64_at(f, at + 40) as u64,
    }
}

/// A segment that is loaded and asks to be writable and executable at once.
pub open spec fn breaks_wx(p: Phdr) -> bool {
    p.typ == PT_LOAD && p.flags & PF_W != 0 && p.flags & PF_X != 0
}

/// No loaded segment is writable and executable at once.
pub open spec fn wx_ok(f: Seq<u8>) -> bool {
    forall|i: int| 0 <= i < phnum(f) ==> !breaks_wx(#[trigger] phdr(f, i))
}

/// How far a file is shifted: a page-aligned place in the range, picked by
/// `random`, for a position-independent file; not at all for another.
pub open spec fn slide_of(f: Seq<u8>, random: u32, aslr: AslrRange) -> int {
    if is_pie(f) {
        aslr.start + random as int % ((aslr.end - aslr.start) / PAGE_SIZE as int) * PAGE_SIZE
    } else {
        0
    }
}

// ---------------------------------------------------------------------------
// Segments
// ---------------------------------------------------------------------------

/// The segment's addresses, shifted, fit the machine.
pub open spec fn fits(p: Phdr, slide: int) -> bool {
    p.vaddr + slide + p.memsz + PAGE_SIZE <= u64::MAX
}

/// First page of a segment at `vaddr`.
pub open spec fn first_page(vaddr: int) -> int {
    vaddr / PAGE_SIZE as int * PAGE_SIZE
}

/// Number of pages of a segment at `vaddr`.
pub open spec fn page_count(vaddr: int, memsz: int) -> int {
    (vaddr + memsz + PAGE_SIZE - 1) / PAGE_SIZE as int - vaddr / PAGE_SIZE as int
}

/// The byte that a segment at `vaddr` puts at address `a`: from the file where
/// the file has it, zero elsewhere.
pub open spec fn segment_byte(f: Seq<u8>, p: Phdr, vaddr: int, a: int) -> u8 {
    let src = p.offset + (a - vaddr);
    if vaddr <= a < vaddr + p.filesz && src < f.len() {
        f[src]
    } else {
        0
    }
}

/// The page at address `page` of a segment.
pub open spec fn page_image(f: Seq<u8>, p: Phdr, vaddr: int, page: int) -> Seq<u8> {
    Seq::new(PAGE_SIZE as nat, |k: int| segment_byte(f, p, vaddr, page + k))
}

/// The flags of a segment's pages.
pub open spec fn segment_flags(p: Phdr) -> MemoryFlags {
    MemoryFlags {
        writable: p.flags & PF_W != 0,
        executable: p.flags & PF_X != 0,
        device: false,
    }
}

/// Gives a process a page with the given bytes: the first free page holds them
/// and is mapped at `va`. Fails when memory runs out.
#[verifier::opaque]
pub open spec fn page_loaded(
    m: MemModel,
    root: int,
    pid: u8,
    owner: u8,
    va: u64,
    flags: MemoryFlags,
    image: Seq<u8>,
) -> (MemModel, Option<Error>) {
    match m.free_page(0) {
        None => (m, Some(Error::OutOfMemory)),
        Some(q) => {
            let (n, ok) = mem::mapped(
                phys::with_data(m, q, Some(pid), image),
                root,
                va,
                mem::page_entry(m.addr(q) as u64, flags, true),
                owner,
            );
            (
                n,
                if ok {
                    None
                } else {
                    Some(Error::OutOfMemory)
                },
            )
        },
    }
}

/// The first `k` pages of a segment at `vaddr`.
pub open spec fn pages_loaded(
    m: MemModel,
    root: int,
    pid: u8,
    owner: u8,
    f: Seq<u8>,
    p: Phdr,
    vaddr: int,
    k: nat,
) -> (MemModel, Option<Error>)
    decreases k,
{
    if k == 0 {
        (m, None)
    } else {
        let (m1, e) = pages_loaded(m, root, pid, owner, f, p, vaddr, (k - 1) as nat);
        if e is Some {
            (m1, e)
        } else {
            let va = first_page(vaddr) + (k - 1) * PAGE_SIZE;
            page_loaded(
                m1,
                root,
                pid,
                owner,
                va as u64,
                segment_flags(p),
                page_image(f, p, vaddr, va),
            )
        }
    }
}

/// The first `n` program headers: each loadable segment is loaded.
pub open spec fn segments_loaded(
    m: MemModel,
    root: int,
    pid: u8,
    owner: u8,
    f: Seq<u8>,
    slide: int,
    n: nat,
) -> (MemModel, Option<Error>)
    decreases n,
{
    if n == 0 {
        (m, None)
    } else {
        let (m1, e) = segments_loaded(m, root, pid, owner, f, slide, (n - 1) as nat);
        let p = phdr(f, n - 1);
        if e is Some || p.typ != PT_LOAD {
            (m1, e)
        } else if !fits(p, slide) {
            (m1, Some(Error::BadAddress))
        } else {
            pages_loaded(
                m1,
                root,
                pid,
                owner,
                f,
                p,
                p.vaddr + slide,
                page_count(p.vaddr + slide, p.memsz as int) as nat,
            )
        }
    }
}

// ---------------------------------------------------------------------------
// Memory of a process
// ---------------------------------------------------------------------------

/// The page that holds address `va` of a process, if it is mapped to a page of
/// data.
pub open spec fn page_of(m: MemModel, root: int, va: u64) -> Option<int> {
    match mem::translation(m, root, va) {
        None => None,
        Some(pa) => {
            let q = m.index(pa);
            if m.base <= pa && 0 <= q < m.pages.len() && m.pages[q].role is Data {
                Some(q)
            } else {
                None
            }
        },
    }
}

/// The byte at address `va` of a process.
pub open spec fn byte_at(m: MemModel, root: int, va: u64) -> Option<u8> {
    match page_of(m, root, va) {
        None => None,
        Some(q) => Some(m.pages[q].data[(va % PAGE_SIZE) as int]),
    }
}

/// The `n` bytes from address `va` on are there.
pub open spec fn readable(m: MemModel, root: int, va: u64, n: nat) -> bool {
    va + n <= u64::MAX && forall|k: int|
        0 <= k < n ==> #[trigger] byte_at(m, root, (va + k) as u64) is Some
}

/// The `n` bytes from address `va` on.
pub open spec fn bytes_at(m: MemModel, root: int, va: u64, n: nat) -> Seq<u8> {
    Seq::new(n, |k: int| byte_at(m, root, (va + k) as u64)->0)
}

/// The process writes one byte.
pub open spec fn byte_written(m: MemModel, root: int, va: u64, b: u8) -> MemModel {
    let q = page_of(m, root, va)->0;
    phys::with_data(
        m,
        q,
        m.pages[q].owner,
        m.pages[q].data.update((va % PAGE_SIZE) as int, b),
    )
}

/// The process writes the first `n` of `data`.
pub open spec fn bytes_written(m: MemModel, root: int, va: u64, data: Seq<u8>, n: nat) -> MemModel
    decreases n,
{
    if n == 0 {
        m
    } else {
        byte_written(
            bytes_written(m, root, va, data, (n - 1) as nat),
            root,
            (va + n - 1) as u64,
            data[n - 1],
        )
    }
}

// ---------------------------------------------------------------------------
// Relocations
// ---------------------------------------------------------------------------

/// What the dynamic section says of the relocation table.
#[derive(Clone, Copy, PartialEq, Eq, Structural, Debug)]
pub struct DynInfo {
    pub rela: Option<u64>,
    pub size: u64,
    pub ent: u64,
}

/// Nothing said.
pub open spec fn no_info() -> DynInfo {
    DynInfo { rela: None, size: 0, ent: 0 }
}

/// What entry (tag, value) adds.
pub open spec fn with_dyn(d: DynInfo, tag: int, value: int) -> DynInfo {
    if tag == 7 {
        DynInfo { rela: Some(value as u64), ..d }
    } else if tag == 8 {
        DynInfo { size: value as u64, ..d }
    } else if tag == 9 {
        DynInfo { ent: value as u64, ..d }
    } else {
        d
    }
}

/// The entries of a dynamic section from offset `at` on, at most `n` of them,
/// up to the null entry; `None` when they leave the file.
pub open spec fn dyn_entries(f: Seq<u8>, d: DynInfo, at: int, n: nat) -> Option<DynInfo>
    decreases n,
{
    if n == 0 {
        Some(d)
    } else if at + DYN_SIZE > f.len() {
        None
    } else if bytes::le64_at(f, at) == 0 {
        Some(d)
    } else {
        dyn_entries(
            f,
            with_dyn(d, bytes::le64_at(f, at), bytes::le64_at(f, at + 8)),
            at + DYN_SIZE,
            (n - 1) as nat,
        )
    }
}

/// What the dynamic sections among the program headers from `i` on say.
pub open spec fn dyn_info(f: Seq<u8>, d: DynInfo, i: int) -> Option<DynInfo>
    decreases phnum(f) - i,
{
    if i >= phnum(f) {
        Some(d)
    } else if phdr(f, i).typ != PT_DYNAMIC {
        dyn_info(f, d, i + 1)
    } else {
        match dyn_entries(
            f,
            d,
            phdr(f, i).offset as int,
            (phdr(f, i).filesz / DYN_SIZE as u64) as nat,
        ) {
            None => None,
            Some(d1) => dyn_info(f, d1, i + 1),
        }
    }
}

/// The eight bytes of `x`, least significant first.
pub open spec fn le64_bytes(x: u64) -> Seq<u8> {
    Seq::new(8, |i: int| byte_of(x, i))
}

/// Byte `i` of `x`, counted from the least significant.
pub open spec fn byte_of(x: u64, i: int) -> u8 {
    if i == 0 {
        (x % 0x100) as u8
    } else if i == 1 {
        (x / 0x100 % 0x100) as u8
    } else if i == 2 {
        (x / 0x1_0000 % 0x100) as u8
    } else if i == 3 {
        (x / 0x100_0000 % 0x100) as u8
    } else if i == 4 {
        (x / 0x1_0000_0000 % 0x100) as u8
    } else if i == 5 {
        (x / 0x100_0000_0000 % 0x100) as u8
    } else if i == 6 {
        (x / 0x1_0000_0000_0000 % 0x100) as u8
    } else {
        (x / 0x100_0000_0000_0000) as u8
    }
}

/// One relocation entry `rela`, applied: a relative one stores the shifted
/// addend at its shifted place; any other is skipped.
pub open spec fn rela_applied(m: MemModel, root: int, rela: Seq<u8>, slide: int) -> (
    MemModel,
    Option<Error>,
) {
    let target = bytes::le64_at(rela, 0) + slide;
    if bytes::le32_at(rela, 8) != R_AARCH64_RELATIVE {
        (m, None)
    } else if target > u64::MAX || !readable(m, root, target as u64, 8) {
        (m, Some(Error::BadAddress))
    } else {
        let value = (bytes::le64_at(rela, 16) as u64).wrapping_add(slide as u64);
        (bytes_written(m, root, target as u64, le64_bytes(value), 8), None)
    }
}

/// The first `n` entries of the relocation table at address `table` applied,
/// each as it stands in memory then.
pub open spec fn relas_applied(m: MemModel, root: int, table: int, slide: int, n: nat) -> (
    MemModel,
    Option<Error>,
)
    decreases n,
{
    if n == 0 {
        (m, None)
    } else {
        let (m1, e) = relas_applied(m, root, table, slide, (n - 1) as nat);
        let at = table + (n - 1) * RELA_SIZE;
        if e is Some {
            (m1, e)
        } else if at > u64::MAX || !readable(m1, root, at as u64, RELA_SIZE as nat) {
            (m1, Some(Error::BadAddress))
        } else {
            rela_applied(m1, root, bytes_at(m1, root, at as u64, RELA_SIZE as nat), slide)
        }
    }
}

/// The relocations of a position-independent file.
pub open spec fn relocated(m: MemModel, root: int, f: Seq<u8>, slide: int) -> (
    MemModel,
    Option<Error>,
) {
    match dyn_info(f, no_info(), 0) {
        None => (m, Some(Error::BadAddress)),
        Some(d) => match d.rela {
            None => (m, None),
            Some(table) => if d.ent == 0 {
                (m, None)
            } else {
                relas_applied(m, root, table + slide, slide, (d.size / d.ent) as nat)
            },
        },
    }
}

// ---------------------------------------------------------------------------
// Loading
// ---------------------------------------------------------------------------

/// Loading a file: memory afterwards, and the result.
pub open spec fn loaded(
    m: MemModel,
    root: int,
    pid: u8,
    owner: u8,
    f: Seq<u8>,
    random: u32,
    aslr: AslrRange,
) -> (MemModel, Result<ElfLoadResult, Error>) {
    let slide = slide_of(f, random, aslr);
    if !header_ok(f) || !phdrs_ok(f) || !wx_ok(f) {
        (m, Err(Error::BadAddress))
    } else {
        let (m1, e1) = segments_loaded(m, root, pid, owner, f, slide, phnum(f) as nat);
        let (m2, e2) = if e1 is None && is_pie(f) {
            relocated(m1, root, f, slide)
        } else {
            (m1, e1)
        };
        let entry = bytes::le64_at(f, 24) + slide;
        (
            m2,
            if e2 is Some {
                Err(e2->0)
            } else if entry > u64::MAX {
                Err(Error::BadAddress)
            } else {
                Ok(ElfLoadResult { entry_point: entry as u64, aslr_slide: slide as u64 })
            },
        )
    }
}

} // verus!
