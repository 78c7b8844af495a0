//! ELF64 loader.
//!
//! Loads static and position-independent AArch64 executables; the latter at a
//! random place. A file with a segment that is both writable and executable is
//! refused.
use crate::arch::aarch64::elf::model::{DynInfo, Phdr};
use crate::arch::aarch64::mem::{MemoryFlags, MemoryMapping};
use crate::bytes::{le16, le32, le64};
use crate::error::Error;
use crate::mem::{MemoryManager, PAGE_SIZE};
use vstd::prelude::*;

pub mod laws;
pub mod model;
pub mod relocation;

verus! {

pub const EM_AARCH64: u16 = 183;

pub const ET_EXEC: u16 = 2;

pub const ET_DYN: u16 = 3;

pub const PT_LOAD: u32 = 1;

pub const PT_DYNAMIC: u32 = 2;

pub const PF_X: u32 = 1;

pub const PF_W: u32 = 2;

pub const R_AARCH64_RELATIVE: u32 = 1027;

/// Bytes of the file header.
pub const EHDR_SIZE: usize = 64;

/// Bytes of a program header.
pub const PHDR_SIZE: usize = 56;

/// Bytes of a dynamic entry.
pub const DYN_SIZE: usize = 16;

/// Bytes of a relocation entry.
pub const RELA_SIZE: usize = 24;

/// Where position-independent files may be placed.
#[derive(Clone, Copy)]
pub struct AslrRange {
    pub start: u64,
    pub end: u64,
}

/// A loaded file.
#[derive(Clone, Copy, PartialEq, Eq, Structural, Debug)]
pub struct ElfLoadResult {
    /// Entry point, shifted.
    pub entry_point: u64,
    /// How far the file was shifted.
    pub aslr_slide: u64,
}

/// Tests the file header.
fn check_header(f: &[u8]) -> (r: bool)
    ensures
        r == model::header_ok(f@),
{
    if f.len() < EHDR_SIZE {
        return false;
    }
    if f[0] != 0x7f || f[1] != 69 || f[2] != 76 || f[3] != 70 {
        return false;
    }
    if f[4] != 2 || f[5] != 1 {
        return false;
    }
    let machine: u16 = le16(f, 18);
    let kind: u16 = le16(f, 16);
    machine == EM_AARCH64 && (kind == ET_DYN || kind == ET_EXEC)
}

/// Tests whether the program headers lie in the file.
fn check_phdrs(f: &[u8]) -> (r: bool)
    requires
        f@.len() >= EHDR_SIZE,
    ensures
        r == model::phdrs_ok(f@),
{
    let off: u64 = le64(f, 32);
    let size: u64 = le16(f, 56) as u64 * 56;
    off <= f.len() as u64 && size <= f.len() as u64 - off
}

/// Reads program header `i`.
fn read_phdr(f: &[u8], i: usize) -> (p: Phdr)
    requires
        f@.len() >= EHDR_SIZE,
        model::phdrs_ok(f@),
        i < model::phnum(f@),
    ensures
        p == model::phdr(f@, i as int),
{
    let off: u64 = le64(f, 32);
    proof {
        assert(model::phdr_off(f@, i as int) + PHDR_SIZE <= model::phdr_off(
            f@,
            model::phnum(f@),
        )) by (nonlinear_arith)
            requires
                i + 1 <= model::phnum(f@),
        ;
    }
    assert(f.len() == f@.len());
    let at: usize = off as usize + i * PHDR_SIZE;
    Phdr {
        typ: le32(f, at),
        flags: le32(f, at + 4),
        offset: le64(f, at + 8),
        vaddr: le64(f, at + 16),
        filesz: le64(f, at + 32),
        memsz: le64(f, at + 40),
    }
}

/// Tests that no loaded segment is writable and executable at once.
fn check_wx(f: &[u8]) -> (r: bool)
    requires
        f@.len() >= EHDR_SIZE,
        model::phdrs_ok(f@),
    ensures
        r == model::wx_ok(f@),
{
    let n: usize = le16(f, 56) as usize;
    let mut i: usize = 0;
    while i < n
        invariant
            f@.len() >= EHDR_SIZE,
            model::phdrs_ok(f@),
            n == model::phnum(f@),
            i <= n,
            forall|j: int| 0 <= j < i ==> !model::breaks_wx(#[trigger] model::phdr(f@, j)),
        decreases n - i,
    {
        let p: Phdr = read_phdr(f, i);
        if p.typ == PT_LOAD && p.flags & PF_W != 0 && p.flags & PF_X != 0 {
            assert(model::breaks_wx(model::phdr(f@, i as int)));
            return false;
        }
        i = i + 1;
    }
    true
}

/// Picks the shift.
fn pick_slide(f: &[u8], random: u32, aslr: &AslrRange) -> (r: u64)
    requires
        f@.len() >= EHDR_SIZE,
        aslr.start + PAGE_SIZE <= aslr.end,
    ensures
        r == model::slide_of(f@, random, *aslr),
        r <= aslr.end,
{
    if le16(f, 16) == ET_DYN {
        let slots: u64 = (aslr.end - aslr.start) / PAGE_SIZE;
        let slot: u64 = random as u64 % slots;
        assert(slot * PAGE_SIZE <= slots * PAGE_SIZE) by (nonlinear_arith)
            requires
                slot <= slots,
        ;
        aslr.start + slot * PAGE_SIZE
    } else {
        0
    }
}

/// The bytes of the page at `page` of a segment at `vaddr`.
fn build_page(f: &[u8], p: &Phdr, vaddr: u64, page: u64) -> (r: Vec<u8>)
    requires
        page + PAGE_SIZE <= u64::MAX,
    ensures
        r@ == model::page_image(f@, *p, vaddr as int, page as int),
        r@.len() == PAGE_SIZE,
{
    let mut r: Vec<u8> = Vec::new();
    let mut k: usize = 0;
    while k < 16384
        invariant
            k <= 16384,
            page + PAGE_SIZE <= u64::MAX,
            r@.len() == k,
            forall|j: int|
                0 <= j < k ==> #[trigger] r@[j] == model::segment_byte(
                    f@,
                    *p,
                    vaddr as int,
                    page + j,
                ),
        decreases 16384 - k,
    {
        let a: u64 = page + k as u64;
        let b: u8 = if a >= vaddr && a - vaddr < p.filesz && p.offset < f.len() as u64 && a - vaddr
            < f.len() as u64 - p.offset {
            f[(p.offset + (a - vaddr)) as usize]
        } else {
            0
        };
        r.push(b);
        k = k + 1;
    }
    assert(r@ =~= model::page_image(f@, *p, vaddr as int, page as int));
    r
}

/// Gives the process a page with the given bytes at `va`.
fn load_page(
    mm: &mut MemoryManager,
    mapping: &MemoryMapping,
    pid: u8,
    va: u64,
    flags: MemoryFlags,
    image: Vec<u8>,
) -> (r: Result<(), Error>)
    requires
        old(mm).wf(),
        mapping.wf(old(mm)@),
        image@.len() == PAGE_SIZE,
    ensures
        final(mm).wf(),
        mapping.wf(final(mm)@),
        mapping.root(final(mm)@) == mapping.root(old(mm)@),
        ({
            let (n, e) = model::page_loaded(
                old(mm)@,
                mapping.root(old(mm)@),
                pid,
                mapping.owner(),
                va,
                flags,
                image@,
            );
            &&& final(mm)@ == n
            &&& outcome(r, e)
        }),
{
    reveal(model::page_loaded);
    let ghost m = mm@;
    let q: usize = match mm.alloc_page(pid) {
        Ok(q) => q,
        Err(e) => {
            return Err(e);
        },
    };
    mm.fill_page(q, image);
    proof {
        assert(mm@.pages =~= crate::mem::with_data(m, q as int, Some(pid), image@).pages);
        assert(m.page_ok(q as int));
        assert(mm@.is_table(mapping.root(m), 1));
        crate::arch::aarch64::mem::law_map_page(
            mm@,
            mapping.root(m),
            va,
            crate::arch::aarch64::mem::page_entry(m.addr(q as int) as u64, flags, true),
            mapping.owner(),
        );
    }
    assert(q * PAGE_SIZE <= m.pages.len() * PAGE_SIZE) by (nonlinear_arith)
        requires
            q <= m.pages.len(),
    ;
    let phys: u64 = mm.base + q as u64 * PAGE_SIZE;
    mapping.map_page(mm, phys, va, flags, true)
}

/// The result `r` reports the error `e`, if there is one.
pub open spec fn outcome(r: Result<(), Error>, e: Option<Error>) -> bool {
    match r {
        Ok(()) => e is None,
        Err(x) => e == Some(x),
    }
}

/// Loads the pages of a segment at `vaddr`.
fn load_segment(
    mm: &mut MemoryManager,
    mapping: &MemoryMapping,
    pid: u8,
    f: &[u8],
    p: &Phdr,
    vaddr: u64,
) -> (r: Result<(), Error>)
    requires
        old(mm).wf(),
        mapping.wf(old(mm)@),
        vaddr + p.memsz + PAGE_SIZE <= u64::MAX,
    ensures
        final(mm).wf(),
        mapping.wf(final(mm)@),
        mapping.root(final(mm)@) == mapping.root(old(mm)@),
        ({
            let (n, e) = model::pages_loaded(
                old(mm)@,
                mapping.root(old(mm)@),
                pid,
                mapping.owner(),
                f@,
                *p,
                vaddr as int,
                model::page_count(vaddr as int, p.memsz as int) as nat,
            );
            &&& final(mm)@ == n
            &&& outcome(r, e)
        }),
{
    let flags: MemoryFlags = MemoryFlags {
        writable: p.flags & PF_W != 0,
        executable: p.flags & PF_X != 0,
        device: false,
    };
    let page_start: u64 = vaddr / PAGE_SIZE * PAGE_SIZE;
    let page_end: u64 = (vaddr + p.memsz + (PAGE_SIZE - 1)) / PAGE_SIZE * PAGE_SIZE;
    let ghost count = model::page_count(vaddr as int, p.memsz as int) as nat;
    let ghost m = mm@;
    let ghost root = mapping.root(m);
    let ghost mut k: nat = 0;
    let mut page: u64 = page_start;
    while page < page_end
        invariant
            mm.wf(),
            mapping.wf(mm@),
            mapping.root(mm@) == root,
            m == old(mm)@,
            root == mapping.root(m),
            count == model::page_count(vaddr as int, p.memsz as int),
            flags == model::segment_flags(*p),
            page_start == model::first_page(vaddr as int),
            page == page_start + k * PAGE_SIZE,
            page_end == page_start + count * PAGE_SIZE,
            page_end <= vaddr + p.memsz + PAGE_SIZE - 1,
            vaddr + p.memsz + PAGE_SIZE <= u64::MAX,
            k <= count,
            model::pages_loaded(m, root, pid, mapping.owner(), f@, *p, vaddr as int, k) == (
                mm@,
                None::<Error>,
            ),
        decreases page_end - page,
    {
        let image: Vec<u8> = build_page(f, p, vaddr, page);
        let ghost m1 = mm@;
        proof {
            k = k + 1;
            lemma_error_stays(m, root, pid, mapping.owner(), f@, *p, vaddr as int, k, count);
        }
        match load_page(mm, mapping, pid, page, flags, image) {
            Ok(()) => {},
            Err(e) => {
                return Err(e);
            },
        }
        page = page + PAGE_SIZE;
    }
    Ok(())
}

/// After an error nothing more of the segment is loaded.
proof fn lemma_error_stays(
    m: crate::mem::MemModel,
    root: int,
    pid: u8,
    owner: u8,
    f: Seq<u8>,
    p: Phdr,
    vaddr: int,
    k: nat,
    n: nat,
)
    ensures
        k <= n && model::pages_loaded(m, root, pid, owner, f, p, vaddr, k).1 is Some
            ==> model::pages_loaded(m, root, pid, owner, f, p, vaddr, n) == model::pages_loaded(
            m,
            root,
            pid,
            owner,
            f,
            p,
            vaddr,
            k,
        ),
    decreases n,
{
    if k < n {
        lemma_error_stays(m, root, pid, owner, f, p, vaddr, k, (n - 1) as nat);
    }
}

/// After an error no further segment is loaded.
proof fn lemma_segment_error_stays(
    m: crate::mem::MemModel,
    root: int,
    pid: u8,
    owner: u8,
    f: Seq<u8>,
    slide: int,
    k: nat,
    n: nat,
)
    ensures
        k <= n && model::segments_loaded(m, root, pid, owner, f, slide, k).1 is Some
            ==> model::segments_loaded(m, root, pid, owner, f, slide, n) == model::segments_loaded(
            m,
            root,
            pid,
            owner,
            f,
            slide,
            k,
        ),
    decreases n,
{
    if k < n {
        lemma_segment_error_stays(m, root, pid, owner, f, slide, k, (n - 1) as nat);
    }
}

/// Loads every loadable segment.
fn load_segments(
    mm: &mut MemoryManager,
    mapping: &MemoryMapping,
    pid: u8,
    f: &[u8],
    slide: u64,
) -> (r: Result<(), Error>)
    requires
        old(mm).wf(),
        mapping.wf(old(mm)@),
        f@.len() >= EHDR_SIZE,
        model::phdrs_ok(f@),
    ensures
        final(mm).wf(),
        mapping.wf(final(mm)@),
        mapping.root(final(mm)@) == mapping.root(old(mm)@),
        ({
            let (n, e) = model::segments_loaded(
                old(mm)@,
                mapping.root(old(mm)@),
                pid,
                mapping.owner(),
                f@,
                slide as int,
                model::phnum(f@) as nat,
            );
            &&& final(mm)@ == n
            &&& outcome(r, e)
        }),
{
    let n: usize = le16(f, 56) as usize;
    let ghost m = mm@;
    let ghost root = mapping.root(m);
    let mut i: usize = 0;
    while i < n
        invariant
            mm.wf(),
            mapping.wf(mm@),
            mapping.root(mm@) == root,
            m == old(mm)@,
            root == mapping.root(m),
            f@.len() >= EHDR_SIZE,
            model::phdrs_ok(f@),
            n == model::phnum(f@),
            i <= n,
            model::segments_loaded(m, root, pid, mapping.owner(), f@, slide as int, i as nat) == (
                mm@,
                None::<Error>,
            ),
        decreases n - i,
    {
        let p: Phdr = read_phdr(f, i);
        i = i + 1;
        proof {
            lemma_segment_error_stays(
                m,
                root,
                pid,
                mapping.owner(),
                f@,
                slide as int,
                i as nat,
                n as nat,
            );
        }
        if p.typ != PT_LOAD {
            continue;
        }
        if p.vaddr > u64::MAX - slide || p.memsz > u64::MAX - (p.vaddr + slide) || PAGE_SIZE
            > u64::MAX - (p.vaddr + slide) - p.memsz {
            return Err(Error::BadAddress);
        }
        let vaddr: u64 = p.vaddr + slide;
        match load_segment(mm, mapping, pid, f, &p, vaddr) {
            Ok(()) => {},
            Err(e) => {
                return Err(e);
            },
        }
    }
    Ok(())
}

// ---------------------------------------------------------------------------
// Memory of a process
// ---------------------------------------------------------------------------

/// The page that holds address `va` of a process.
fn find_page(mm: &MemoryManager, mapping: &MemoryMapping, va: u64) -> (r: Option<usize>)
    requires
        mm.wf(),
        mapping.wf(mm@),
    ensures
        match r {
            Some(q) => model::page_of(mm@, mapping.root(mm@), va) == Some(q as int) && q
                < mm@.pages.len() && mm@.pages[q as int].role is Data,
            None => model::page_of(mm@, mapping.root(mm@), va) is None,
        },
{
    let pa: u64 = match mapping.virt_to_phys(mm, va) {
        Ok(pa) => pa,
        Err(_) => {
            return None;
        },
    };
    if pa < mm.base || (pa - mm.base) / PAGE_SIZE >= mm.pages.len() as u64 {
        return None;
    }
    let q: usize = mm.page_at(pa);
    proof {
        mm.lemma_page(q as int);
        assert(mm@.page_ok(q as int));
    }
    match &mm.pages[q].frame {
        crate::mem::Frame::Data(_) => Some(q),
        crate::mem::Frame::Table(_) => None,
    }
}

/// Tests whether the `n` bytes from `va` on are there.
fn check_readable(mm: &MemoryManager, mapping: &MemoryMapping, va: u64, n: usize) -> (r: bool)
    requires
        mm.wf(),
        mapping.wf(mm@),
    ensures
        r == model::readable(mm@, mapping.root(mm@), va, n as nat),
{
    if va > u64::MAX - n as u64 {
        return false;
    }
    let mut k: usize = 0;
    while k < n
        invariant
            k <= n,
            va + n <= u64::MAX,
            mm.wf(),
            mapping.wf(mm@),
            forall|j: int|
                0 <= j < k ==> #[trigger] model::byte_at(mm@, mapping.root(mm@), (va + j) as u64)
                    is Some,
        decreases n - k,
    {
        if find_page(mm, mapping, va + k as u64).is_none() {
            assert(model::byte_at(mm@, mapping.root(mm@), (va + k) as u64) is None);
            return false;
        }
        k = k + 1;
    }
    true
}

/// Reads bytes of a process.
fn read_bytes(mm: &MemoryManager, mapping: &MemoryMapping, va: u64, n: usize) -> (r: Vec<u8>)
    requires
        mm.wf(),
        mapping.wf(mm@),
        model::readable(mm@, mapping.root(mm@), va, n as nat),
    ensures
        r@ == model::bytes_at(mm@, mapping.root(mm@), va, n as nat),
{
    let mut r: Vec<u8> = Vec::new();
    let mut k: usize = 0;
    while k < n
        invariant
            k <= n,
            mm.wf(),
            mapping.wf(mm@),
            model::readable(mm@, mapping.root(mm@), va, n as nat),
            r@ == model::bytes_at(mm@, mapping.root(mm@), va, k as nat),
        decreases n - k,
    {
        assert(model::byte_at(mm@, mapping.root(mm@), (va + k) as u64) is Some);
        let a: u64 = va + k as u64;
        let b: u8 = match find_page(mm, mapping, a) {
            Some(q) => mm.read_byte(q, (a % PAGE_SIZE) as usize),
            None => 0,
        };
        r.push(b);
        k = k + 1;
        assert(r@ =~= model::bytes_at(mm@, mapping.root(mm@), va, k as nat));
    }
    assert(r@ =~= model::bytes_at(mm@, mapping.root(mm@), va, n as nat));
    r
}

/// Writing a byte keeps every mapping.
proof fn lemma_byte_written(m: crate::mem::MemModel, root: int, va: u64, b: u8, r: int, a: u64)
    requires
        m.wf(),
        m.is_table(root, 1),
        m.is_table(r, 1),
        model::page_of(m, root, va) is Some,
    ensures
        model::byte_written(m, root, va, b).wf(),
        model::byte_written(m, root, va, b).is_table(r, 1),
        crate::arch::aarch64::mem::pte_of(model::byte_written(m, root, va, b), r, a)
            == crate::arch::aarch64::mem::pte_of(m, r, a),
        model::page_of(model::byte_written(m, root, va, b), r, a) == model::page_of(m, r, a),
{
    let q = model::page_of(m, root, va)->0;
    let n = model::byte_written(m, root, va, b);
    assert(m.page_ok(q));
    crate::mem::lemma_with_data_wf(
        m,
        q,
        m.pages[q].owner,
        m.pages[q].data.update((va % PAGE_SIZE) as int, b),
    );
    crate::arch::aarch64::mem::lemma_tables_agree(m, n, r, a);
}

/// Writes bytes of a process.
fn write_bytes(mm: &mut MemoryManager, mapping: &MemoryMapping, va: u64, data: &[u8])
    requires
        old(mm).wf(),
        mapping.wf(old(mm)@),
        model::readable(old(mm)@, mapping.root(old(mm)@), va, data@.len()),
    ensures
        final(mm).wf(),
        mapping.wf(final(mm)@),
        mapping.root(final(mm)@) == mapping.root(old(mm)@),
        final(mm)@ == model::bytes_written(
            old(mm)@,
            mapping.root(old(mm)@),
            va,
            data@,
            data@.len(),
        ),
{
    let ghost m = mm@;
    let ghost root = mapping.root(m);
    let mut k: usize = 0;
    while k < data.len()
        invariant
            k <= data@.len(),
            va + data@.len() <= u64::MAX,
            mm.wf(),
            mapping.wf(mm@),
            mapping.root(mm@) == root,
            forall|j: int|
                0 <= j < data@.len() ==> #[trigger] model::byte_at(mm@, root, (va + j) as u64) is Some,
            mm@ == model::bytes_written(m, root, va, data@, k as nat),
        decreases data@.len() - k,
    {
        let a: u64 = va + k as u64;
        let ghost m1 = mm@;
        assert(model::byte_at(mm@, root, (va + k) as u64) is Some);
        match find_page(mm, mapping, a) {
            Some(q) => {
                mm.write_byte(q, (a % PAGE_SIZE) as usize, data[k]);
            },
            None => {},
        }
        proof {
            assert(mm@ == model::byte_written(m1, root, a, data@[k as int]));
            lemma_byte_written(m1, root, a, data@[k as int], root, a);
            assert forall|j: int| 0 <= j < data@.len() implies #[trigger] model::byte_at(
                mm@,
                root,
                (va + j) as u64,
            ) is Some by {
                lemma_byte_written(m1, root, a, data@[k as int], root, (va + j) as u64);
                assert(model::byte_at(m1, root, (va + j) as u64) is Some);
            }
        }
        k = k + 1;
    }
}

// ---------------------------------------------------------------------------
// Relocations
// ---------------------------------------------------------------------------

/// Reads a dynamic section of at most `n` entries at offset `at`.
fn read_dynamic(f: &[u8], info: DynInfo, at: u64, n: u64) -> (r: Option<DynInfo>)
    ensures
        r == model::dyn_entries(f@, info, at as int, n as nat),
{
    let mut d: DynInfo = info;
    let mut off: u64 = at;
    let mut left: u64 = n;
    while left > 0
        invariant
            model::dyn_entries(f@, info, at as int, n as nat) == model::dyn_entries(
                f@,
                d,
                off as int,
                left as nat,
            ),
        decreases left,
    {
        if off > f.len() as u64 || f.len() as u64 - off < 16 {
            return None;
        }
        let i: usize = off as usize;
        assert(f.len() == f@.len());
        let tag: u64 = le64(f, i);
        let value: u64 = le64(f, i + 8);
        if tag == 0 {
            return Some(d);
        }
        if tag == 7 {
            d.rela = Some(value);
        } else if tag == 8 {
            d.size = value;
        } else if tag == 9 {
            d.ent = value;
        }
        off = off + 16;
        left = left - 1;
    }
    Some(d)
}

/// Reads what the dynamic sections say of the relocation table.
fn read_dyn_info(f: &[u8]) -> (r: Option<DynInfo>)
    requires
        f@.len() >= EHDR_SIZE,
        model::phdrs_ok(f@),
    ensures
        r == model::dyn_info(f@, model::no_info(), 0),
{
    let n: usize = le16(f, 56) as usize;
    let mut d: DynInfo = DynInfo { rela: None, size: 0, ent: 0 };
    let mut i: usize = 0;
    while i < n
        invariant
            f@.len() >= EHDR_SIZE,
            model::phdrs_ok(f@),
            n == model::phnum(f@),
            i <= n,
            model::dyn_info(f@, model::no_info(), 0) == model::dyn_info(f@, d, i as int),
        decreases n - i,
    {
        let p: Phdr = read_phdr(f, i);
        if p.typ == PT_DYNAMIC {
            d = match read_dynamic(f, d, p.offset, p.filesz / 16) {
                Some(d1) => d1,
                None => {
                    return None;
                },
            };
        }
        i = i + 1;
    }
    Some(d)
}

/// The bytes of `x`, least significant first.
fn le64_vec(x: u64) -> (r: Vec<u8>)
    ensures
        r@ == model::le64_bytes(x),
{
    let r: Vec<u8> = vec![
        (x % 0x100) as u8,
        (x / 0x100 % 0x100) as u8,
        (x / 0x1_0000 % 0x100) as u8,
        (x / 0x100_0000 % 0x100) as u8,
        (x / 0x1_0000_0000 % 0x100) as u8,
        (x / 0x100_0000_0000 % 0x100) as u8,
        (x / 0x1_0000_0000_0000 % 0x100) as u8,
        (x / 0x100_0000_0000_0000) as u8,
    ];
    assert(r@ =~= model::le64_bytes(x));
    r
}

/// Applies one relocation entry.
fn apply_rela(mm: &mut MemoryManager, mapping: &MemoryMapping, rela: &[u8], slide: u64) -> (r:
    Result<(), Error>)
    requires
        old(mm).wf(),
        mapping.wf(old(mm)@),
        rela@.len() == RELA_SIZE,
    ensures
        final(mm).wf(),
        mapping.wf(final(mm)@),
        mapping.root(final(mm)@) == mapping.root(old(mm)@),
        ({
            let (n, e) = model::rela_applied(
                old(mm)@,
                mapping.root(old(mm)@),
                rela@,
                slide as int,
            );
            &&& final(mm)@ == n
            &&& outcome(r, e)
        }),
{
    if le32(rela, 8) != R_AARCH64_RELATIVE {
        return Ok(());
    }
    let offset: u64 = le64(rela, 0);
    let addend: u64 = le64(rela, 16);
    if offset > u64::MAX - slide {
        return Err(Error::BadAddress);
    }
    let target: u64 = offset + slide;
    if !check_readable(mm, mapping, target, 8) {
        return Err(Error::BadAddress);
    }
    let value: Vec<u8> = le64_vec(addend.wrapping_add(slide));
    write_bytes(mm, mapping, target, &value);
    Ok(())
}

/// After an error no further relocation is applied.
proof fn lemma_rela_error_stays(
    m: crate::mem::MemModel,
    root: int,
    table: int,
    slide: int,
    k: nat,
    n: nat,
)
    ensures
        k <= n && model::relas_applied(m, root, table, slide, k).1 is Some
            ==> model::relas_applied(m, root, table, slide, n) == model::relas_applied(
            m,
            root,
            table,
            slide,
            k,
        ),
    decreases n,
{
    if k < n {
        lemma_rela_error_stays(m, root, table, slide, k, (n - 1) as nat);
    }
}

/// Applies the relocations of a position-independent file.
fn apply_relocations(mm: &mut MemoryManager, mapping: &MemoryMapping, f: &[u8], slide: u64) -> (r:
    Result<(), Error>)
    requires
        old(mm).wf(),
        mapping.wf(old(mm)@),
        f@.len() >= EHDR_SIZE,
        model::phdrs_ok(f@),
    ensures
        final(mm).wf(),
        mapping.wf(final(mm)@),
        mapping.root(final(mm)@) == mapping.root(old(mm)@),
        ({
            let (n, e) = model::relocated(old(mm)@, mapping.root(old(mm)@), f@, slide as int);
            &&& final(mm)@ == n
            &&& outcome(r, e)
        }),
{
    let info: DynInfo = match read_dyn_info(f) {
        Some(d) => d,
        None => {
            return Err(Error::BadAddress);
        },
    };
    let offset: u64 = match info.rela {
        Some(a) => a,
        None => {
            return Ok(());
        },
    };
    if info.ent == 0 {
        return Ok(());
    }
    let count: u64 = info.size / info.ent;
    let ghost m = mm@;
    let ghost root = mapping.root(m);
    let ghost table = offset + slide;
    let mut i: u64 = 0;
    while i < count
        invariant
            m == old(mm)@,
            root == mapping.root(m),
            mm.wf(),
            mapping.wf(mm@),
            mapping.root(mm@) == root,
            i <= count,
            table == offset + slide,
            model::dyn_info(f@, model::no_info(), 0) == Some(info),
            info.rela == Some(offset),
            info.ent != 0,
            count == info.size / info.ent,
            model::relas_applied(m, root, table, slide as int, i as nat) == (mm@, None::<Error>),
        decreases count - i,
    {
        proof {
            lemma_rela_error_stays(m, root, table, slide as int, (i + 1) as nat, count as nat);
        }
        let far: u128 = offset as u128 + slide as u128 + i as u128 * 24;
        assert(far == table + i * RELA_SIZE);
        if far > u64::MAX as u128 {
            return Err(Error::BadAddress);
        }
        let at: u64 = far as u64;
        if !check_readable(mm, mapping, at, RELA_SIZE) {
            return Err(Error::BadAddress);
        }
        let rela: Vec<u8> = read_bytes(mm, mapping, at, RELA_SIZE);
        match apply_rela(mm, mapping, &rela, slide) {
            Ok(()) => {},
            Err(e) => {
                return Err(e);
            },
        }
        i = i + 1;
    }
    Ok(())
}

/// Loads an ELF64 file into the address space of process `pid`.
///
/// A file that is no AArch64 executable, whose headers leave the file, or that
/// has a segment both writable and executable is refused before memory changes.
/// A position-independent file is shifted by a place in `aslr` that `random`
/// picks.
pub fn load_elf(
    f: &[u8],
    pid: u8,
    mapping: &MemoryMapping,
    mm: &mut MemoryManager,
    random: u32,
    aslr: &AslrRange,
) -> (r: Result<ElfLoadResult, Error>)
    requires
        old(mm).wf(),
        mapping.wf(old(mm)@),
        aslr.start + PAGE_SIZE <= aslr.end,
    ensures
        final(mm).wf(),
        mapping.wf(final(mm)@),
        (final(mm)@, r) == model::loaded(
            old(mm)@,
            mapping.root(old(mm)@),
            pid,
            mapping.owner(),
            f@,
            random,
            *aslr,
        ),
{
    if !check_header(f) || !check_phdrs(f) || !check_wx(f) {
        return Err(Error::BadAddress);
    }
    let slide: u64 = pick_slide(f, random, aslr);
    match load_segments(mm, mapping, pid, f, slide) {
        Ok(()) => {},
        Err(e) => {
            return Err(e);
        },
    }
    if le16(f, 16) == ET_DYN {
        match apply_relocations(mm, mapping, f, slide) {
            Ok(()) => {},
            Err(e) => {
                return Err(e);
            },
        }
    }
    let entry: u64 = le64(f, 24);
    if entry > u64::MAX - slide {
        return Err(Error::BadAddress);
    }
    Ok(ElfLoadResult { entry_point: entry + slide, aslr_slide: slide })
}

} // verus!
