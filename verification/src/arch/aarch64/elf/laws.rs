//! What holds of a loaded file.
use crate::arch::aarch64::elf;
use crate::arch::aarch64::elf::model;
use crate::arch::aarch64::elf::model::Phdr;
use crate::arch::aarch64::elf::{AslrRange, PT_LOAD, R_AARCH64_RELATIVE};
use crate::arch::aarch64::mem;
use crate::arch::aarch64::mem::MemoryFlags;
use crate::bytes;
use crate::error::Error;
use crate::mem as phys;
use crate::mem::{MemModel, PAGE_SIZE, PTE_ADDR_MASK};
use vstd::prelude::*;

verus! {

/// Addresses of user space have 47 bits.
pub const USER_LIMIT: u64 = 0x8000_0000_0000;

/// A file with a segment that is writable and executable at once is refused,
/// and memory stays as it was.
pub proof fn law_wx_file_refused(
    m: MemModel,
    root: int,
    pid: u8,
    owner: u8,
    f: Seq<u8>,
    random: u32,
    aslr: AslrRange,
    i: int,
)
    requires
        0 <= i < model::phnum(f),
        model::breaks_wx(model::phdr(f, i)),
    ensures
        model::loaded(m, root, pid, owner, f, random, aslr).0 == m,
        model::loaded(m, root, pid, owner, f, random, aslr).1 is Err,
{
}

/// A position-independent file is placed in the range, at a page boundary when
/// the range starts at one.
pub proof fn law_slide_in_range(f: Seq<u8>, random: u32, aslr: AslrRange)
    requires
        model::is_pie(f),
        aslr.start + PAGE_SIZE <= aslr.end,
    ensures
        aslr.start <= model::slide_of(f, random, aslr) < aslr.end,
        aslr.start % PAGE_SIZE == 0 ==> model::slide_of(f, random, aslr) % PAGE_SIZE as int == 0,
{
    let slots = (aslr.end - aslr.start) / PAGE_SIZE as int;
    let slot = random as int % slots;
    assert(slot * PAGE_SIZE + PAGE_SIZE <= slots * PAGE_SIZE) by (nonlinear_arith)
        requires
            slot + 1 <= slots,
    ;
    vstd::arithmetic::div_mod::lemma_mod_multiples_vanish(
        slot,
        aslr.start as int,
        PAGE_SIZE as int,
    );
}

/// The page at `va` is mapped with these flags to a page of the process that
/// holds `image`.
pub open spec fn holds(m: MemModel, root: int, va: u64, flags: MemoryFlags, image: Seq<u8>) -> bool {
    exists|q: int| #[trigger] holds_in(m, root, va, flags, image, q)
}

/// The same, with the physical page named.
pub open spec fn holds_in(
    m: MemModel,
    root: int,
    va: u64,
    flags: MemoryFlags,
    image: Seq<u8>,
    q: int,
) -> bool {
    &&& 0 <= q < m.pages.len()
    &&& m.pages[q].role is Data
    &&& m.pages[q].owner is Some
    &&& m.pages[q].data == image
    &&& mem::pte_of(m, root, va) == mem::page_entry(m.addr(q) as u64, flags, true)
}

/// What a page holds can be read there.
pub proof fn law_held_bytes_are_read(
    m: MemModel,
    root: int,
    va: u64,
    flags: MemoryFlags,
    image: Seq<u8>,
    k: int,
)
    requires
        m.wf(),
        m.is_table(root, 1),
        holds(m, root, va, flags, image),
        va % PAGE_SIZE == 0,
        0 <= k < PAGE_SIZE,
        va + k <= u64::MAX,
    ensures
        model::byte_at(m, root, (va + k) as u64) == Some(image[k]),
{
    let q = choose|q: int| #[trigger] holds_in(m, root, va, flags, image, q);
    let a = (va + k) as u64;
    let pa = m.addr(q) + k;
    lemma_index_of(m, q, k);
    assert(a % PAGE_SIZE == k);
    assert(mem::same_page(a, va)) by {
        lemma_same_page(va, k);
    }
    mem::lemma_entry_of_page(m, q, flags);
    assert(mem::translation(m, root, a) == Some(pa));
}

/// An address leads to the page that it lies in.
proof fn lemma_index_of(m: MemModel, q: int, k: int)
    requires
        0 <= q,
        0 <= k < PAGE_SIZE,
    ensures
        m.index(m.addr(q) + k) == q,
        m.addr(q) + k >= m.base,
{
    assert((q * PAGE_SIZE + k) / (PAGE_SIZE as int) == q) by {
        vstd::arithmetic::div_mod::lemma_fundamental_div_mod_converse(
            q * PAGE_SIZE + k,
            PAGE_SIZE as int,
            q,
            k,
        );
    }
    assert(q * PAGE_SIZE >= 0) by (nonlinear_arith)
        requires
            q >= 0,
    ;
}

/// An address within a page has the entries of the page.
proof fn lemma_same_page(va: u64, k: int)
    requires
        va % PAGE_SIZE == 0,
        0 <= k < PAGE_SIZE,
        va + k <= u64::MAX,
    ensures
        mem::same_page((va + k) as u64, va),
{
}

/// Loading one page: on success the page holds its image, memory and roots stay
/// in order, and what other pages hold is kept.
pub proof fn law_page_loaded(
    m: MemModel,
    root: int,
    pid: u8,
    owner: u8,
    va: u64,
    flags: MemoryFlags,
    image: Seq<u8>,
)
    requires
        m.wf(),
        m.is_table(root, 1),
        image.len() == PAGE_SIZE,
    ensures
        ({
            let (n, e) = model::page_loaded(m, root, pid, owner, va, flags, image);
            &&& n.wf()
            &&& n.is_table(root, 1)
            &&& e is None ==> holds(n, root, va, flags, image)
            &&& e is Some ==> e == Some(Error::OutOfMemory) && n.free_count() == 0
            &&& forall|r: int, a: u64, g: MemoryFlags, i: Seq<u8>|
                m.is_table(r, 1) && !(r == root && mem::same_page(a, va)) && holds(m, r, a, g, i)
                    ==> #[trigger] holds(n, r, a, g, i)
        }),
{
    reveal(model::page_loaded);
    phys::lemma_free_page(m, 0);
    phys::lemma_count_zero(m.pages);
    if let Some(q) = m.free_page(0) {
        assert(m.page_ok(q));
        let m1 = phys::with_data(m, q, Some(pid), image);
        phys::lemma_with_data_wf(m, q, Some(pid), image);
        let e = mem::page_entry(m.addr(q) as u64, flags, true);
        assert(m1.is_table(root, 1));
        mem::law_map_page(m1, root, va, e, owner);
        let (n, ok) = mem::mapped(m1, root, va, e, owner);
        assert(n.is_table(root, 1));
        assert(n.pages[q] == m1.pages[q]);
        if ok {
            assert(holds_in(n, root, va, flags, image, q));
        }
        assert forall|r: int, a: u64, g: MemoryFlags, i: Seq<u8>|
            m.is_table(r, 1) && !(r == root && mem::same_page(a, va)) && holds(
                m,
                r,
                a,
                g,
                i,
            ) implies #[trigger] holds(n, r, a, g, i) by {
            let p = choose|p: int| #[trigger] holds_in(m, r, a, g, i, p);
            assert(p != q);
            assert(m1.pages[p] == m.pages[p]);
            assert(n.pages[p] == m1.pages[p]);
            mem::lemma_tables_agree(m, m1, r, a);
            assert(mem::pte_of(n, r, a) == mem::pte_of(m1, r, a));
            assert(holds_in(n, r, a, g, i, p));
        }
    }
}

/// Distinct pages of user space have distinct entries.
proof fn lemma_distinct_pages(a: u64, b: u64)
    requires
        a < USER_LIMIT,
        b < USER_LIMIT,
        a % PAGE_SIZE == 0,
        b % PAGE_SIZE == 0,
        a != b,
    ensures
        !mem::same_page(a, b),
{
    mem::law_indices_determine_address(a);
    mem::law_indices_determine_address(b);
}

/// The `j`-th page address of a segment at `vaddr`.
pub open spec fn nth_page(vaddr: int, j: int) -> u64 {
    (model::first_page(vaddr) + j * PAGE_SIZE) as u64
}

/// Page `j` of a segment is in memory as the file says.
pub open spec fn page_in_memory(m: MemModel, root: int, f: Seq<u8>, p: Phdr, vaddr: int, j: int) -> bool {
    holds(
        m,
        root,
        nth_page(vaddr, j),
        model::segment_flags(p),
        model::page_image(f, p, vaddr, nth_page(vaddr, j) as int),
    )
}

/// Page addresses of a segment are aligned and in order.
proof fn lemma_nth_page(vaddr: int, j: int, k: int)
    requires
        0 <= vaddr,
        0 <= j < k,
        model::first_page(vaddr) + k * PAGE_SIZE <= USER_LIMIT,
    ensures
        nth_page(vaddr, j) == model::first_page(vaddr) + j * PAGE_SIZE,
        nth_page(vaddr, j) < USER_LIMIT,
        nth_page(vaddr, j) % PAGE_SIZE == 0,
        forall|i: int| 0 <= i < j ==> #[trigger] nth_page(vaddr, i) < nth_page(vaddr, j),
{
    assert(j * PAGE_SIZE + PAGE_SIZE <= k * PAGE_SIZE) by (nonlinear_arith)
        requires
            j + 1 <= k,
    ;
    assert(j * PAGE_SIZE >= 0) by (nonlinear_arith)
        requires
            j >= 0,
    ;
    vstd::arithmetic::div_mod::lemma_mod_multiples_basic(
        vaddr / PAGE_SIZE as int + j,
        PAGE_SIZE as int,
    );
    assert((vaddr / PAGE_SIZE as int + j) * PAGE_SIZE == model::first_page(vaddr) + j * PAGE_SIZE)
        by {
        vstd::arithmetic::mul::lemma_mul_is_distributive_add_other_way(
            PAGE_SIZE as int,
            vaddr / PAGE_SIZE as int,
            j,
        );
    }
    assert forall|i: int| 0 <= i < j implies #[trigger] nth_page(vaddr, i) < nth_page(vaddr, j) by {
        assert(i * PAGE_SIZE + PAGE_SIZE <= j * PAGE_SIZE && i * PAGE_SIZE >= 0) by (
            nonlinear_arith)
            requires
                0 <= i,
                i + 1 <= j,
        ;
    }
}

/// Loading the pages of a segment in user space: when it succeeds, every one of
/// them is in memory as the file says; what the process has elsewhere is kept.
pub proof fn law_segment_loaded(
    m: MemModel,
    root: int,
    pid: u8,
    owner: u8,
    f: Seq<u8>,
    p: Phdr,
    vaddr: int,
    k: nat,
)
    requires
        m.wf(),
        m.is_table(root, 1),
        0 <= vaddr,
        model::first_page(vaddr) + k * PAGE_SIZE <= USER_LIMIT,
    ensures
        ({
            let (n, e) = model::pages_loaded(m, root, pid, owner, f, p, vaddr, k);
            &&& n.wf()
            &&& n.is_table(root, 1)
            &&& e is None ==> forall|j: int|
                0 <= j < k ==> #[trigger] page_in_memory(n, root, f, p, vaddr, j)
            &&& forall|a: u64, g: MemoryFlags, i: Seq<u8>|
                a < USER_LIMIT && a % PAGE_SIZE == 0 && (a < model::first_page(vaddr) || a
                    >= model::first_page(vaddr) + k * PAGE_SIZE) && holds(m, root, a, g, i)
                    ==> #[trigger] holds(n, root, a, g, i)
        }),
    decreases k,
{
    if k > 0 {
        let j0 = k - 1;
        lemma_nth_page(vaddr, j0, k as int);
        law_segment_loaded(m, root, pid, owner, f, p, vaddr, j0 as nat);
        let (m1, e1) = model::pages_loaded(m, root, pid, owner, f, p, vaddr, j0 as nat);
        let va = nth_page(vaddr, j0);
        let image = model::page_image(f, p, vaddr, va as int);
        if e1 is None {
            law_page_loaded(m1, root, pid, owner, va, model::segment_flags(p), image);
            let (n, e) = model::page_loaded(
                m1,
                root,
                pid,
                owner,
                va,
                model::segment_flags(p),
                image,
            );
            assert(model::pages_loaded(m, root, pid, owner, f, p, vaddr, k) == (n, e));
            if e is None {
                assert forall|j: int| 0 <= j < k implies #[trigger] page_in_memory(
                    n,
                    root,
                    f,
                    p,
                    vaddr,
                    j,
                ) by {
                    if j < j0 {
                        assert(page_in_memory(m1, root, f, p, vaddr, j));
                        lemma_nth_page(vaddr, j, k as int);
                        assert(nth_page(vaddr, j) < va);
                        lemma_distinct_pages(nth_page(vaddr, j), va);
                    }
                }
            }
            assert forall|a: u64, g: MemoryFlags, i: Seq<u8>|
                a < USER_LIMIT && a % PAGE_SIZE == 0 && (a < model::first_page(vaddr) || a
                    >= model::first_page(vaddr) + k * PAGE_SIZE) && holds(
                    m,
                    root,
                    a,
                    g,
                    i,
                ) implies #[trigger] holds(n, root, a, g, i) by {
                assert(holds(m1, root, a, g, i));
                assert(a != va);
                lemma_distinct_pages(a, va);
            }
        }
    }
}

/// The pages of segment `i`, when it is loaded.
pub open spec fn segment_end(f: Seq<u8>, slide: int, i: int) -> int {
    let p = model::phdr(f, i);
    model::first_page(p.vaddr + slide) + model::page_count(p.vaddr + slide, p.memsz as int)
        * PAGE_SIZE
}

/// Segments `i` and `j` share no page, and lie in user space.
pub open spec fn apart(f: Seq<u8>, slide: int, i: int, j: int) -> bool {
    let a = model::phdr(f, i);
    let b = model::phdr(f, j);
    segment_end(f, slide, i) <= model::first_page(b.vaddr + slide) || segment_end(f, slide, j)
        <= model::first_page(a.vaddr + slide)
}

/// The loadable segments of the file lie in user space and share no page.
pub open spec fn well_placed(f: Seq<u8>, slide: int) -> bool {
    &&& forall|i: int|
        0 <= i < model::phnum(f) && (#[trigger] model::phdr(f, i)).typ == PT_LOAD
            ==> segment_end(f, slide, i) <= USER_LIMIT && model::fits(model::phdr(f, i), slide)
    &&& forall|i: int, j: int|
        0 <= i < j < model::phnum(f) && (#[trigger] model::phdr(f, i)).typ == PT_LOAD && (
        #[trigger] model::phdr(f, j)).typ == PT_LOAD ==> apart(f, slide, i, j)
}

/// Loading a file whose segments are apart: when it succeeds, every page of
/// every loadable segment is in memory as the file says.
pub proof fn law_segments_loaded(
    m: MemModel,
    root: int,
    pid: u8,
    owner: u8,
    f: Seq<u8>,
    slide: int,
    n: nat,
)
    requires
        m.wf(),
        m.is_table(root, 1),
        0 <= slide,
        n <= model::phnum(f),
        well_placed(f, slide),
        model::segments_loaded(m, root, pid, owner, f, slide, n).1 is None,
    ensures
        ({
            let r = model::segments_loaded(m, root, pid, owner, f, slide, n).0;
            &&& r.wf()
            &&& r.is_table(root, 1)
            &&& forall|i: int, k: int|
                0 <= i < n && model::phdr(f, i).typ == PT_LOAD && 0 <= k < model::page_count(
                    model::phdr(f, i).vaddr + slide,
                    model::phdr(f, i).memsz as int,
                ) ==> #[trigger] page_in_memory(
                    r,
                    root,
                    f,
                    model::phdr(f, i),
                    model::phdr(f, i).vaddr + slide,
                    k,
                )
        }),
    decreases n,
{
    if n > 0 {
        law_segments_loaded(m, root, pid, owner, f, slide, (n - 1) as nat);
        let m1 = model::segments_loaded(m, root, pid, owner, f, slide, (n - 1) as nat).0;
        let r = model::segments_loaded(m, root, pid, owner, f, slide, n).0;
        let last = n - 1;
        let p = model::phdr(f, last);
        let vaddr = p.vaddr + slide;
        if p.typ == PT_LOAD {
            let count = model::page_count(vaddr, p.memsz as int) as nat;
            assert(model::fits(p, slide));
            lemma_count_nonneg(vaddr, p.memsz as int);
            law_segment_loaded(m1, root, pid, owner, f, p, vaddr, count);
            assert forall|i: int, k: int|
                0 <= i < n && model::phdr(f, i).typ == PT_LOAD && 0 <= k < model::page_count(
                    model::phdr(f, i).vaddr + slide,
                    model::phdr(f, i).memsz as int,
                ) implies #[trigger] page_in_memory(
                r,
                root,
                f,
                model::phdr(f, i),
                model::phdr(f, i).vaddr + slide,
                k,
            ) by {
                let q = model::phdr(f, i);
                let v = q.vaddr + slide;
                if i < last {
                    assert(page_in_memory(m1, root, f, q, v, k));
                    assert(apart(f, slide, i, last));
                    assert(segment_end(f, slide, i) <= USER_LIMIT);
                    let c = model::page_count(v, q.memsz as int);
                    lemma_nth_page(v, k, c);
                    assert(k * PAGE_SIZE + PAGE_SIZE <= c * PAGE_SIZE && k * PAGE_SIZE >= 0) by (
                        nonlinear_arith)
                        requires
                            0 <= k,
                            k + 1 <= c,
                    ;
                } else {
                    assert(page_in_memory(r, root, f, p, vaddr, k));
                }
            }
        }
    }
}

/// A segment has no negative number of pages.
proof fn lemma_count_nonneg(vaddr: int, memsz: int)
    requires
        0 <= memsz,
    ensures
        model::page_count(vaddr, memsz) >= 0,
{
}

/// Two places less than a page apart lie at different places of their pages.
proof fn lemma_places_differ(a: int, b: int)
    requires
        a < b < a + PAGE_SIZE,
    ensures
        a % PAGE_SIZE as int != b % PAGE_SIZE as int,
{
}

/// One more byte is written: it is there, and so is what was written before it.
proof fn lemma_one_more_written(m: MemModel, root: int, at: u64, b: u8, a: u64)
    requires
        m.wf(),
        m.is_table(root, 1),
        model::page_of(m, root, at) is Some,
    ensures
        ({
            let w = model::byte_written(m, root, at, b);
            &&& w.wf()
            &&& w.is_table(root, 1)
            &&& model::page_of(w, root, a) == model::page_of(m, root, a)
            &&& a == at ==> model::byte_at(w, root, a) == Some(b)
            &&& a % PAGE_SIZE != at % PAGE_SIZE ==> model::byte_at(w, root, a) == model::byte_at(
                m,
                root,
                a,
            )
        }),
{
    elf::lemma_byte_written(m, root, at, b, root, a);
    let q = model::page_of(m, root, at)->0;
    assert(m.page_ok(q));
    assert(m.pages[q].data.len() == PAGE_SIZE);
}

/// What a process wrote is there afterwards, and an address leads where it led.
pub proof fn lemma_bytes_written(m: MemModel, root: int, va: u64, data: Seq<u8>, n: nat, a: u64)
    requires
        m.wf(),
        m.is_table(root, 1),
        model::readable(m, root, va, data.len()),
        n <= data.len() <= PAGE_SIZE,
    ensures
        model::bytes_written(m, root, va, data, n).wf(),
        model::bytes_written(m, root, va, data, n).is_table(root, 1),
        model::page_of(model::bytes_written(m, root, va, data, n), root, a) == model::page_of(
            m,
            root,
            a,
        ),
        va <= a < va + n ==> model::byte_at(model::bytes_written(m, root, va, data, n), root, a)
            == Some(data[a - va]),
    decreases n,
{
    if n > 0 {
        let k = (n - 1) as nat;
        let at = (va + k) as u64;
        lemma_bytes_written(m, root, va, data, k, a);
        lemma_bytes_written(m, root, va, data, k, at);
        assert(model::byte_at(m, root, (va + k) as u64) is Some);
        lemma_one_more_written(
            model::bytes_written(m, root, va, data, k),
            root,
            at,
            data[k as int],
            a,
        );
        if va <= a < at {
            lemma_places_differ(a as int, at as int);
        }
    }
}

/// A number of 32 bits is put together from its bytes.
proof fn lemma_bytes_of_half(x: u32)
    ensures
        x == x % 0x100 + x / 0x100 % 0x100 * 0x100 + x / 0x1_0000 % 0x100 * 0x1_0000 + x
            / 0x100_0000 * 0x100_0000,
{
}

/// The bytes of a word are those of its halves.
proof fn lemma_bytes_of_word(x: u64)
    by (bit_vector)
    ensures
        x % 0x100 == x % 0x1_0000_0000 % 0x100,
        x / 0x100 % 0x100 == x % 0x1_0000_0000 / 0x100 % 0x100,
        x / 0x1_0000 % 0x100 == x % 0x1_0000_0000 / 0x1_0000 % 0x100,
        x / 0x100_0000 % 0x100 == x % 0x1_0000_0000 / 0x100_0000,
        x / 0x100_0000_0000 % 0x100 == x / 0x1_0000_0000 / 0x100 % 0x100,
        x / 0x1_0000_0000_0000 % 0x100 == x / 0x1_0000_0000 / 0x1_0000 % 0x100,
        x / 0x100_0000_0000_0000 == x / 0x1_0000_0000 / 0x100_0000,
{
}

/// The bytes of a word, read as a word.
pub proof fn lemma_word_reads_back(x: u64)
    ensures
        bytes::le64_at(model::le64_bytes(x), 0) == x,
{
    let s = model::le64_bytes(x);
    let lo = (x % 0x1_0000_0000) as u32;
    let hi = (x / 0x1_0000_0000) as u32;
    lemma_bytes_of_word(x);
    lemma_bytes_of_half(lo);
    lemma_bytes_of_half(hi);
    assert(bytes::le32_at(s, 0) == lo);
    assert(bytes::le32_at(s, 4) == hi);
}

/// A relative relocation stores its shifted addend at its shifted place, where the
/// process reads it as a word, and moves no address elsewhere.
pub proof fn law_relocation_is_stored(m: MemModel, root: int, rela: Seq<u8>, slide: u64, a: u64)
    requires
        m.wf(),
        m.is_table(root, 1),
        bytes::le32_at(rela, 8) == R_AARCH64_RELATIVE,
        model::rela_applied(m, root, rela, slide as int).1 is None,
    ensures
        ({
            let w = model::rela_applied(m, root, rela, slide as int).0;
            let target = (bytes::le64_at(rela, 0) + slide) as u64;
            &&& w.wf()
            &&& w.is_table(root, 1)
            &&& bytes::le64_at(model::bytes_at(w, root, target, 8), 0) == (bytes::le64_at(
                rela,
                16,
            ) as u64).wrapping_add(slide)
            &&& model::page_of(w, root, a) == model::page_of(m, root, a)
        }),
{
    let target = (bytes::le64_at(rela, 0) + slide) as u64;
    let value = (bytes::le64_at(rela, 16) as u64).wrapping_add(slide);
    let data = model::le64_bytes(value);
    lemma_bytes_written(m, root, target, data, 8, a);
    let w = model::bytes_written(m, root, target, data, 8);
    let read = model::bytes_at(w, root, target, 8);
    assert(read =~= data) by {
        assert forall|k: int| 0 <= k < 8 implies #[trigger] read[k] == data[k] by {
            lemma_bytes_written(m, root, target, data, 8, (target + k) as u64);
        }
    }
    lemma_word_reads_back(value);
}

// ---------------------------------------------------------------------------
// What a process finds in its memory
// ---------------------------------------------------------------------------

/// Where program header `i` starts in a file.
pub open spec fn header_at(f: Seq<u8>, i: int) -> int {
    bytes::le64_at(f, 32) + 56 * i
}

/// Program header `i` asks for a segment.
pub open spec fn is_segment(f: Seq<u8>, i: int) -> bool {
    0 <= i < bytes::le16_at(f, 56) && bytes::le32_at(f, header_at(f, i)) == 1
}

/// Where the bytes of segment `i` start in the file.
pub open spec fn source(f: Seq<u8>, i: int) -> int {
    bytes::le64_at(f, header_at(f, i) + 8)
}

/// The address that segment `i` is linked for.
pub open spec fn link_address(f: Seq<u8>, i: int) -> int {
    bytes::le64_at(f, header_at(f, i) + 16)
}

/// How many bytes of segment `i` the file has.
pub open spec fn file_size(f: Seq<u8>, i: int) -> int {
    bytes::le64_at(f, header_at(f, i) + 32)
}

/// How many bytes segment `i` has.
pub open spec fn memory_size(f: Seq<u8>, i: int) -> int {
    bytes::le64_at(f, header_at(f, i) + 40)
}

/// Address `a` of a segment lies in one of its pages.
proof fn lemma_page_of_address(vaddr: int, memsz: int, a: int)
    requires
        0 <= vaddr <= a < vaddr + memsz,
    ensures
        ({
            let j = a / PAGE_SIZE as int - vaddr / PAGE_SIZE as int;
            &&& 0 <= j < model::page_count(vaddr, memsz)
            &&& model::first_page(vaddr) + j * PAGE_SIZE + a % PAGE_SIZE as int == a
        }),
{
    vstd::arithmetic::div_mod::lemma_fundamental_div_mod(a, PAGE_SIZE as int);
}

/// Once the segments are loaded, the process reads every byte that the file has of a
/// segment at its address, and zeros where the segment is longer than what the file has.
/// The page is writable and executable as the segment's flags ask.
pub proof fn law_segments_are_in_memory(
    m: MemModel,
    root: int,
    pid: u8,
    owner: u8,
    f: Seq<u8>,
    slide: int,
    i: int,
    k: int,
)
    requires
        m.wf(),
        m.is_table(root, 1),
        0 <= slide,
        well_placed(f, slide),
        model::segments_loaded(m, root, pid, owner, f, slide, bytes::le16_at(f, 56) as nat).1 is None,
        is_segment(f, i),
        source(f, i) + file_size(f, i) <= f.len(),
        0 <= k < memory_size(f, i),
    ensures
        ({
            let n = model::segments_loaded(m, root, pid, owner, f, slide, bytes::le16_at(f, 56) as nat).0;
            let a = (link_address(f, i) + slide + k) as u64;
            &&& n.wf()
            &&& n.is_table(root, 1)
            &&& a == link_address(f, i) + slide + k
            &&& model::byte_at(n, root, a) == Some(
                if k < file_size(f, i) {
                    f[source(f, i) + k]
                } else {
                    0
                },
            )
            &&& exists|flags: MemoryFlags, image: Seq<u8>|
                #[trigger] holds(n, root, (a / PAGE_SIZE * PAGE_SIZE) as u64, flags, image)
                    && flags.writable == (bytes::le32_at(f, header_at(f, i) + 4) as u32 & 2 != 0)
                    && flags.executable == (bytes::le32_at(f, header_at(f, i) + 4) as u32 & 1 != 0)
                    && !flags.device
        }),
{
    let num = bytes::le16_at(f, 56) as nat;
    let n = model::segments_loaded(m, root, pid, owner, f, slide, num).0;
    let p = model::phdr(f, i);
    let vaddr = p.vaddr + slide;
    law_segments_loaded(m, root, pid, owner, f, slide, num);
    assert(segment_end(f, slide, i) <= USER_LIMIT && model::fits(p, slide));
    let a = vaddr + k;
    lemma_page_of_address(vaddr, p.memsz as int, a);
    let j = a / PAGE_SIZE as int - vaddr / PAGE_SIZE as int;
    let c = model::page_count(vaddr, p.memsz as int);
    lemma_nth_page(vaddr, j, c);
    let va = nth_page(vaddr, j);
    assert(page_in_memory(n, root, f, p, vaddr, j));
    law_held_bytes_are_read(
        n,
        root,
        va,
        model::segment_flags(p),
        model::page_image(f, p, vaddr, va as int),
        a % PAGE_SIZE as int,
    );
    assert(va == (a as u64) / PAGE_SIZE * PAGE_SIZE);
    assert(holds(
        n,
        root,
        ((a as u64) / PAGE_SIZE * PAGE_SIZE) as u64,
        model::segment_flags(p),
        model::page_image(f, p, vaddr, va as int),
    ));
}

/// An executable that is not moved: after it was loaded the process reads every byte of
/// every segment at the address that it was linked for, and starts at the entry of the
/// file.
pub proof fn law_executable_is_in_memory(
    m: MemModel,
    root: int,
    pid: u8,
    owner: u8,
    f: Seq<u8>,
    random: u32,
    aslr: AslrRange,
    i: int,
    k: int,
)
    requires
        m.wf(),
        m.is_table(root, 1),
        bytes::le16_at(f, 16) == 2,
        well_placed(f, 0),
        model::loaded(m, root, pid, owner, f, random, aslr).1 is Ok,
        is_segment(f, i),
        source(f, i) + file_size(f, i) <= f.len(),
        0 <= k < memory_size(f, i),
    ensures
        ({
            let (n, r) = model::loaded(m, root, pid, owner, f, random, aslr);
            &&& r->Ok_0.entry_point == bytes::le64_at(f, 24)
            &&& r->Ok_0.aslr_slide == 0
            &&& model::byte_at(n, root, (link_address(f, i) + k) as u64) == Some(
                if k < file_size(f, i) {
                    f[source(f, i) + k]
                } else {
                    0
                },
            )
        }),
{
    law_segments_are_in_memory(m, root, pid, owner, f, 0, i, k);
}

/// A file that is moved: all of it is moved by the same distance, its entry too, and what
/// the process reads before the relocations is the file.
pub proof fn law_moved_file_is_in_memory(
    m: MemModel,
    root: int,
    pid: u8,
    owner: u8,
    f: Seq<u8>,
    random: u32,
    aslr: AslrRange,
    i: int,
    k: int,
)
    requires
        m.wf(),
        m.is_table(root, 1),
        bytes::le16_at(f, 16) == 3,
        aslr.start + PAGE_SIZE <= aslr.end,
        model::loaded(m, root, pid, owner, f, random, aslr).1 is Ok,
        well_placed(f, model::loaded(m, root, pid, owner, f, random, aslr).1->Ok_0.aslr_slide as int),
        is_segment(f, i),
        source(f, i) + file_size(f, i) <= f.len(),
        0 <= k < memory_size(f, i),
    ensures
        ({
            let (n, r) = model::loaded(m, root, pid, owner, f, random, aslr);
            let slide = r->Ok_0.aslr_slide as int;
            let (n1, e1) = model::segments_loaded(
                m,
                root,
                pid,
                owner,
                f,
                slide,
                bytes::le16_at(f, 56) as nat,
            );
            &&& e1 is None
            &&& (n, None::<Error>) == model::relocated(n1, root, f, slide)
            &&& aslr.start <= slide < aslr.end
            &&& r->Ok_0.entry_point == bytes::le64_at(f, 24) + slide
            &&& model::byte_at(n1, root, (link_address(f, i) + slide + k) as u64) == Some(
                if k < file_size(f, i) {
                    f[source(f, i) + k]
                } else {
                    0
                },
            )
        }),
{
    law_slide_in_range(f, random, aslr);
    let slide = model::slide_of(f, random, aslr);
    law_segments_are_in_memory(m, root, pid, owner, f, slide, i, k);
}

} // verus!
