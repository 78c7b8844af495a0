//! What relocating a position-independent file does to the memory of its process.
use crate::arch::aarch64::elf;
use crate::arch::aarch64::elf::laws;
use crate::arch::aarch64::elf::model;
use crate::arch::aarch64::elf::model::DynInfo;
use crate::bytes;
use crate::mem::{MemModel, PAGE_SIZE};
use vstd::prelude::*;

verus! {

// ---------------------------------------------------------------------------
// The dynamic section
// ---------------------------------------------------------------------------

/// The tag of entry `j` of a dynamic section at offset `at` of the file.
pub open spec fn tag(f: Seq<u8>, at: int, j: int) -> int {
    bytes::le64_at(f, at + 16 * j)
}

/// The value of entry `j`.
pub open spec fn value(f: Seq<u8>, at: int, j: int) -> int {
    bytes::le64_at(f, at + 16 * j + 8)
}

/// Entry `j` is the last of the first `n` with this tag; none is for -1.
pub open spec fn last_with(f: Seq<u8>, at: int, n: int, t: int, j: int) -> bool {
    &&& -1 <= j < n
    &&& j >= 0 ==> tag(f, at, j) == t
    &&& forall|i: int| j < i < n ==> #[trigger] tag(f, at, i) != t
}

/// A dynamic section of `n` entries before its null entry says where the relocation table
/// is (tag 7), how large (tag 8) and how large each of its entries is (tag 9); of several
/// with one tag the last one counts. What follows the null entry does not count.
pub proof fn law_dynamic_section(
    f: Seq<u8>,
    d: DynInfo,
    at: int,
    n: int,
    max: nat,
    a: int,
    b: int,
    c: int,
)
    requires
        0 <= n <= max,
        0 <= at,
        at + 16 * n + 16 <= f.len(),
        forall|i: int| 0 <= i < n ==> #[trigger] tag(f, at, i) != 0,
        n < max ==> tag(f, at, n) == 0,
        last_with(f, at, n, 7, a),
        last_with(f, at, n, 8, b),
        last_with(f, at, n, 9, c),
    ensures
        model::dyn_entries(f, d, at, max) == Some(
            DynInfo {
                rela: if a >= 0 {
                    Some(value(f, at, a) as u64)
                } else {
                    d.rela
                },
                size: if b >= 0 {
                    value(f, at, b) as u64
                } else {
                    d.size
                },
                ent: if c >= 0 {
                    value(f, at, c) as u64
                } else {
                    d.ent
                },
            },
        ),
    decreases n,
{
    assert(tag(f, at, 0) == bytes::le64_at(f, at));
    assert(value(f, at, 0) == bytes::le64_at(f, at + 8));
    if n > 0 {
        let next = at + 16;
        let d1 = model::with_dyn(d, tag(f, at, 0), value(f, at, 0));
        assert forall|i: int| 0 <= i < n implies tag(f, at, i + 1) == #[trigger] tag(f, next, i) by {}
        assert(tag(f, at, n) == tag(f, next, n - 1));
        assert(last_with(f, next, n - 1, 7, if a > 0 {
            a - 1
        } else {
            -1
        })) by {
            lemma_shift(f, at, n, 7, a);
        }
        assert(last_with(f, next, n - 1, 8, if b > 0 {
            b - 1
        } else {
            -1
        })) by {
            lemma_shift(f, at, n, 8, b);
        }
        assert(last_with(f, next, n - 1, 9, if c > 0 {
            c - 1
        } else {
            -1
        })) by {
            lemma_shift(f, at, n, 9, c);
        }
        law_dynamic_section(
            f,
            d1,
            next,
            n - 1,
            (max - 1) as nat,
            if a > 0 {
                a - 1
            } else {
                -1
            },
            if b > 0 {
                b - 1
            } else {
                -1
            },
            if c > 0 {
                c - 1
            } else {
                -1
            },
        );
        assert(tag(f, at, 0) != 0);
        assert(a > 0 ==> value(f, next, a - 1) == value(f, at, a));
        assert(b > 0 ==> value(f, next, b - 1) == value(f, at, b));
        assert(c > 0 ==> value(f, next, c - 1) == value(f, at, c));
        assert(a < 0 ==> tag(f, at, 0) != 7);
        assert(b < 0 ==> tag(f, at, 0) != 8);
        assert(c < 0 ==> tag(f, at, 0) != 9);
    }
}

/// The same of the entries behind the first.
proof fn lemma_shift(f: Seq<u8>, at: int, n: int, t: int, j: int)
    requires
        n > 0,
        last_with(f, at, n, t, j),
    ensures
        last_with(f, at + 16, n - 1, t, if j > 0 {
            j - 1
        } else {
            -1
        }),
{
    let k = if j > 0 {
        j - 1
    } else {
        -1
    };
    if j > 0 {
        assert(tag(f, at + 16, k) == tag(f, at, j));
    }
    assert forall|i: int| k < i < n - 1 implies #[trigger] tag(f, at + 16, i) != t by {
        assert(tag(f, at + 16, i) == tag(f, at, i + 1));
    }
}

/// Program header `i` is for the dynamic section.
pub open spec fn is_dynamic(f: Seq<u8>, i: int) -> bool {
    bytes::le32_at(f, laws::header_at(f, i)) == 2
}

/// Past the last dynamic section nothing more is said.
proof fn lemma_no_dynamic(f: Seq<u8>, d: DynInfo, i: int)
    requires
        0 <= i,
        forall|j: int| i <= j < bytes::le16_at(f, 56) ==> !#[trigger] is_dynamic(f, j),
    ensures
        model::dyn_info(f, d, i) == Some(d),
    decreases bytes::le16_at(f, 56) - i,
{
    if i < bytes::le16_at(f, 56) {
        assert(!is_dynamic(f, i));
        lemma_no_dynamic(f, d, i + 1);
    }
}

/// The only dynamic section is found.
proof fn lemma_dynamic_header(f: Seq<u8>, d: DynInfo, i: int, h: int)
    requires
        0 <= i <= h < bytes::le16_at(f, 56),
        is_dynamic(f, h),
        forall|j: int| i <= j < bytes::le16_at(f, 56) && j != h ==> !#[trigger] is_dynamic(f, j),
    ensures
        model::dyn_info(f, d, i) == model::dyn_entries(
            f,
            d,
            laws::source(f, h),
            (laws::file_size(f, h) / 16) as nat,
        ),
    decreases h - i,
{
    bytes::lemma_le64_range(f, laws::header_at(f, h) + 8);
    bytes::lemma_le64_range(f, laws::header_at(f, h) + 32);
    if i < h {
        assert(!is_dynamic(f, i));
        lemma_dynamic_header(f, d, i + 1, h);
    } else {
        assert(is_dynamic(f, i));
        match model::dyn_entries(f, d, laws::source(f, h), (laws::file_size(f, h) / 16) as nat) {
            Some(d1) => lemma_no_dynamic(f, d1, i + 1),
            None => {},
        }
    }
}

/// A moved file whose dynamic section, of `n` entries, has one entry each for place, size and
/// entry size of the relocation table: what is relocated is the table at that place, moved
/// by the slide, with as many entries as go into its size.
pub proof fn law_relocation_follows_the_dynamic_section(
    m: MemModel,
    root: int,
    f: Seq<u8>,
    slide: int,
    h: int,
    n: int,
    a: int,
    b: int,
    c: int,
)
    requires
        0 <= h < bytes::le16_at(f, 56),
        is_dynamic(f, h),
        forall|j: int| 0 <= j < bytes::le16_at(f, 56) && j != h ==> !#[trigger] is_dynamic(f, j),
        0 <= n <= laws::file_size(f, h) / 16,
        laws::source(f, h) + 16 * n + 16 <= f.len(),
        forall|i: int| 0 <= i < n ==> #[trigger] tag(f, laws::source(f, h), i) != 0,
        n < laws::file_size(f, h) / 16 ==> tag(f, laws::source(f, h), n) == 0,
        a >= 0,
        b >= 0,
        c >= 0,
        last_with(f, laws::source(f, h), n, 7, a),
        last_with(f, laws::source(f, h), n, 8, b),
        last_with(f, laws::source(f, h), n, 9, c),
        value(f, laws::source(f, h), c) > 0,
    ensures
        model::relocated(m, root, f, slide) == model::relas_applied(
            m,
            root,
            value(f, laws::source(f, h), a) + slide,
            slide,
            (value(f, laws::source(f, h), b) / value(f, laws::source(f, h), c)) as nat,
        ),
{
    let at = laws::source(f, h);
    bytes::lemma_le64_range(f, laws::header_at(f, h) + 8);
    bytes::lemma_le64_range(f, laws::header_at(f, h) + 32);
    bytes::lemma_le64_range(f, at + 16 * a + 8);
    bytes::lemma_le64_range(f, at + 16 * b + 8);
    bytes::lemma_le64_range(f, at + 16 * c + 8);
    lemma_dynamic_header(f, model::no_info(), 0, h);
    law_dynamic_section(
        f,
        model::no_info(),
        at,
        n,
        (laws::file_size(f, h) / 16) as nat,
        a,
        b,
        c,
    );
}

// ---------------------------------------------------------------------------
// The relocation table
// ---------------------------------------------------------------------------

/// Different addresses of a process lead to different bytes of memory.
#[verifier::opaque]
pub open spec fn unaliased(m: MemModel, root: int) -> bool {
    forall|a: u64, b: u64|
        a < 0x8000_0000_0000 && b < 0x8000_0000_0000 && a != b && #[trigger] model::page_of(
            m,
            root,
            a,
        ) is Some && #[trigger] model::page_of(m, root, b) is Some ==> model::page_of(m, root, a)
            != model::page_of(m, root, b) || a % 16384 != b % 16384
}

/// Entry `j` of the relocation table at address `table`, as it stands in memory.
pub open spec fn entry(m: MemModel, root: int, table: int, j: int) -> Seq<u8> {
    model::bytes_at(m, root, (table + 24 * j) as u64, 24)
}

/// Entry `j` is a relative relocation (1027).
#[verifier::opaque]
pub open spec fn is_relative(m: MemModel, root: int, table: int, j: int) -> bool {
    bytes::le32_at(entry(m, root, table, j), 8) == 1027
}

/// The address that entry `j` is for: its place, moved by the slide.
#[verifier::opaque]
pub open spec fn target(m: MemModel, root: int, table: int, slide: int, j: int) -> int {
    bytes::le64_at(entry(m, root, table, j), 0) + slide
}

/// The address lies in the word that entry `j` is for.
pub open spec fn in_word(m: MemModel, root: int, table: int, slide: int, j: int, a: int) -> bool {
    is_relative(m, root, table, j) && target(m, root, table, slide, j) <= a < target(
        m,
        root,
        table,
        slide,
        j,
    ) + 8
}

/// The words that the first `n` entries are for lie in the address space, apart from each
/// other and from the table.
#[verifier::opaque]
pub open spec fn words_apart(m: MemModel, root: int, table: int, slide: int, n: int) -> bool {
    &&& 0 <= table
    &&& table + 24 * n <= 0x8000_0000_0000
    &&& forall|j: int|
        0 <= j < n && #[trigger] is_relative(m, root, table, j) ==> 0 <= target(
            m,
            root,
            table,
            slide,
            j,
        ) <= 0x8000_0000_0000 - 8
    &&& forall|j: int, a: int|
        0 <= j < n && #[trigger] in_word(m, root, table, slide, j, a) ==> !(table <= a < table + 24
            * n)
    &&& forall|i: int, j: int, a: int|
        0 <= i < j < n && #[trigger] in_word(m, root, table, slide, i, a) ==> !(
        #[trigger] in_word(m, root, table, slide, j, a))
}

/// Writing a word leaves the bytes at other addresses alone.
proof fn lemma_other_byte(m: MemModel, root: int, va: u64, data: Seq<u8>, n: nat, a: u64)
    requires
        m.wf(),
        m.is_table(root, 1),
        unaliased(m, root),
        model::readable(m, root, va, data.len()),
        n <= data.len() <= PAGE_SIZE,
        va + n <= 0x8000_0000_0000,
        a < 0x8000_0000_0000,
        !(va <= a < va + n),
    ensures
        model::byte_at(model::bytes_written(m, root, va, data, n), root, a) == model::byte_at(
            m,
            root,
            a,
        ),
    decreases n,
{
    reveal(unaliased);
    if n > 0 {
        let k = (n - 1) as nat;
        let at = (va + k) as u64;
        let w = model::bytes_written(m, root, va, data, k);
        lemma_other_byte(m, root, va, data, k, a);
        laws::lemma_bytes_written(m, root, va, data, k, a);
        laws::lemma_bytes_written(m, root, va, data, k, at);
        assert(model::byte_at(m, root, (va + k) as u64) is Some);
        elf::lemma_byte_written(w, root, at, data[k as int], root, a);
        let q = model::page_of(w, root, at)->0;
        assert(w.page_ok(q));
        assert(model::page_of(m, root, at) is Some);
        if model::page_of(m, root, a) is Some {
            assert(model::page_of(m, root, a) != model::page_of(m, root, at) || a % 16384 != at
                % 16384);
        }
    }
}

/// Writing keeps addresses apart.
proof fn lemma_stays_unaliased(m: MemModel, root: int, va: u64, data: Seq<u8>, n: nat)
    requires
        m.wf(),
        m.is_table(root, 1),
        unaliased(m, root),
        model::readable(m, root, va, data.len()),
        n <= data.len() <= PAGE_SIZE,
    ensures
        unaliased(model::bytes_written(m, root, va, data, n), root),
{
    reveal(unaliased);
    let w = model::bytes_written(m, root, va, data, n);
    assert forall|a: u64, b: u64|
        a < 0x8000_0000_0000 && b < 0x8000_0000_0000 && a != b && #[trigger] model::page_of(
            w,
            root,
            a,
        ) is Some && #[trigger] model::page_of(w, root, b) is Some implies model::page_of(
        w,
        root,
        a,
    ) != model::page_of(w, root, b) || a % 16384 != b % 16384 by {
        laws::lemma_bytes_written(m, root, va, data, n, a);
        laws::lemma_bytes_written(m, root, va, data, n, b);
    }
}

/// One entry.
proof fn lemma_one(m: MemModel, v: MemModel, root: int, table: int, slide: u64, i: int)
    requires
        model::rela_applied(v, root, entry(m, root, table, i), slide as int).1 is None,
    ensures
        ({
            let w = model::rela_applied(v, root, entry(m, root, table, i), slide as int).0;
            let t = target(m, root, table, slide as int, i) as u64;
            let x = stored(m, root, table, slide, i);
            &&& !is_relative(m, root, table, i) ==> w == v
            &&& is_relative(m, root, table, i) ==> w == model::bytes_written(
                v,
                root,
                t,
                model::le64_bytes(x),
                8,
            ) && model::readable(v, root, t, 8) && t == target(m, root, table, slide as int, i)
        }),
{
    reveal(is_relative);
    reveal(target);
    reveal(stored);
    bytes::lemma_le64_range(entry(m, root, table, i), 0);
}

/// The word that entry `j` stores.
#[verifier::opaque]
spec fn stored(m: MemModel, root: int, table: int, slide: u64, j: int) -> u64 {
    (bytes::le64_at(entry(m, root, table, j), 16) as u64).wrapping_add(slide)
}

/// What holds after the first `n` entries were applied.
proof fn lemma_applied(m: MemModel, root: int, table: int, slide: u64, n: nat, all: int, a: u64)
    requires
        m.wf(),
        m.is_table(root, 1),
        unaliased(m, root),
        n <= all,
        words_apart(m, root, table, slide as int, all),
        model::relas_applied(m, root, table, slide as int, n).1 is None,
        a < 0x8000_0000_0000,
    ensures
        ({
            let w = model::relas_applied(m, root, table, slide as int, n).0;
            &&& w.wf()
            &&& w.is_table(root, 1)
            &&& unaliased(w, root)
            &&& (forall|j: int|
                0 <= j < n ==> !#[trigger] in_word(m, root, table, slide as int, j, a as int))
                ==> model::byte_at(w, root, a) == model::byte_at(m, root, a)
            &&& forall|j: int|
                0 <= j < n && #[trigger] in_word(m, root, table, slide as int, j, a as int)
                    ==> model::byte_at(w, root, a) == Some(
                    model::le64_bytes(stored(m, root, table, slide, j))[a - target(
                        m,
                        root,
                        table,
                        slide as int,
                        j,
                    )],
                )
        }),
    decreases n, 0int,
{
    if n > 0 {
        let i = n - 1;
        let (v, e) = model::relas_applied(m, root, table, slide as int, i as nat);
        let w = model::relas_applied(m, root, table, slide as int, n).0;
        lemma_applied(m, root, table, slide, i as nat, all, a);
        lemma_entry_kept(m, root, table, slide, i, all);
        lemma_one(m, v, root, table, slide, i);
        let t = target(m, root, table, slide as int, i) as u64;
        let data = model::le64_bytes(stored(m, root, table, slide, i));
        if is_relative(m, root, table, i) {
            assert(data.len() == 8);
            laws::lemma_bytes_written(v, root, t, data, 8, a);
            lemma_stays_unaliased(v, root, t, data, 8);
            lemma_bounds(m, root, table, slide as int, all, i);
            if !in_word(m, root, table, slide as int, i, a as int) {
                lemma_other_byte(v, root, t, data, 8, a);
            }
        }
        lemma_once(m, root, table, slide as int, all, i, a as int);
    }
}

/// The word of a relative entry lies in the address space.
proof fn lemma_bounds(m: MemModel, root: int, table: int, slide: int, all: int, i: int)
    requires
        words_apart(m, root, table, slide, all),
        0 <= i < all,
        is_relative(m, root, table, i),
    ensures
        0 <= target(m, root, table, slide, i) <= 0x8000_0000_0000 - 8,
{
    reveal(words_apart);
}

/// An address lies in one word at most.
proof fn lemma_once(m: MemModel, root: int, table: int, slide: int, all: int, i: int, a: int)
    requires
        words_apart(m, root, table, slide, all),
        0 <= i < all,
    ensures
        in_word(m, root, table, slide, i, a) ==> forall|j: int|
            0 <= j < i ==> !#[trigger] in_word(m, root, table, slide, j, a),
{
    reveal(words_apart);
}

/// No word lies in the table.
proof fn lemma_outside(m: MemModel, root: int, table: int, slide: int, all: int, a: int)
    requires
        words_apart(m, root, table, slide, all),
        table <= a < table + 24 * all,
    ensures
        0 <= a < 0x8000_0000_0000,
        forall|j: int| 0 <= j < all ==> !#[trigger] in_word(m, root, table, slide, j, a),
{
    reveal(words_apart);
}

/// The entries still to come stand in memory as they stood.
proof fn lemma_entry_kept(m: MemModel, root: int, table: int, slide: u64, i: int, all: int)
    requires
        m.wf(),
        m.is_table(root, 1),
        unaliased(m, root),
        0 <= i < all,
        words_apart(m, root, table, slide as int, all),
        model::relas_applied(m, root, table, slide as int, i as nat).1 is None,
    ensures
        ({
            let v = model::relas_applied(m, root, table, slide as int, i as nat).0;
            model::bytes_at(v, root, (table + 24 * i) as u64, 24) == entry(m, root, table, i)
        }),
    decreases i, 1int,
{
    let v = model::relas_applied(m, root, table, slide as int, i as nat).0;
    let x = model::bytes_at(v, root, (table + 24 * i) as u64, 24);
    lemma_outside(m, root, table, slide as int, all, table + 24 * i);
    assert forall|k: int| 0 <= k < 24 implies #[trigger] x[k] == entry(m, root, table, i)[k] by {
        let a = table + 24 * i + k;
        lemma_outside(m, root, table, slide as int, all, a);
        lemma_applied(m, root, table, slide, i as nat, all, a as u64);
        assert((table + 24 * i) as u64 + k == a);
    }
    assert(x =~= entry(m, root, table, i));
}

/// A relocation that succeeds has adjusted the words that the table's relative entries are
/// for, and nothing else: each of them then holds the entry's addend plus the slide, and
/// every other byte is what it was.
pub proof fn law_table_is_applied(m: MemModel, root: int, table: int, slide: u64, n: nat, a: u64)
    requires
        m.wf(),
        m.is_table(root, 1),
        unaliased(m, root),
        words_apart(m, root, table, slide as int, n as int),
        model::relas_applied(m, root, table, slide as int, n).1 is None,
        a < 0x8000_0000_0000,
    ensures
        ({
            let w = model::relas_applied(m, root, table, slide as int, n).0;
            &&& forall|j: int|
                0 <= j < n && #[trigger] is_relative(m, root, table, j) ==> bytes::le64_at(
                    model::bytes_at(
                        w,
                        root,
                        target(m, root, table, slide as int, j) as u64,
                        8,
                    ),
                    0,
                ) == (bytes::le64_at(entry(m, root, table, j), 16) + slide) % 0x1_0000_0000_0000_0000
            &&& (forall|j: int|
                0 <= j < n ==> !#[trigger] in_word(m, root, table, slide as int, j, a as int))
                ==> model::byte_at(w, root, a) == model::byte_at(m, root, a)
        }),
{
    lemma_applied(m, root, table, slide, n, n as int, a);
    assert forall|j: int| 0 <= j < n && #[trigger] is_relative(m, root, table, j) implies bytes::le64_at(
        model::bytes_at(
            model::relas_applied(m, root, table, slide as int, n).0,
            root,
            target(m, root, table, slide as int, j) as u64,
            8,
        ),
        0,
    ) == (bytes::le64_at(entry(m, root, table, j), 16) + slide) % 0x1_0000_0000_0000_0000 by {
        lemma_word_is_stored(m, root, table, slide, n, j);
    }
}

proof fn lemma_word_is_stored(m: MemModel, root: int, table: int, slide: u64, n: nat, j: int)
    requires
        m.wf(),
        m.is_table(root, 1),
        unaliased(m, root),
        words_apart(m, root, table, slide as int, n as int),
        model::relas_applied(m, root, table, slide as int, n).1 is None,
        0 <= j < n,
        is_relative(m, root, table, j),
    ensures
        bytes::le64_at(
            model::bytes_at(
                model::relas_applied(m, root, table, slide as int, n).0,
                root,
                target(m, root, table, slide as int, j) as u64,
                8,
            ),
            0,
        ) == (bytes::le64_at(entry(m, root, table, j), 16) + slide) % 0x1_0000_0000_0000_0000,
{
    let w = model::relas_applied(m, root, table, slide as int, n).0;
    let t = target(m, root, table, slide as int, j);
    let x = stored(m, root, table, slide, j);
    let data = model::le64_bytes(x);
    let read = model::bytes_at(w, root, t as u64, 8);
    lemma_bounds(m, root, table, slide as int, n as int, j);
    assert forall|k: int| 0 <= k < 8 implies #[trigger] read[k] == data[k] by {
        let b = (t + k) as u64;
        assert(in_word(m, root, table, slide as int, j, b as int));
        lemma_applied(m, root, table, slide, n, n as int, b);
    }
    assert(read =~= data);
    laws::lemma_word_reads_back(x);
    lemma_sum(m, root, table, slide, j);
}

proof fn lemma_sum(m: MemModel, root: int, table: int, slide: u64, j: int)
    ensures
        stored(m, root, table, slide, j) == (bytes::le64_at(entry(m, root, table, j), 16) + slide)
            % 0x1_0000_0000_0000_0000,
{
    reveal(stored);
    bytes::lemma_le64_range(entry(m, root, table, j), 16);
}

} // verus!
