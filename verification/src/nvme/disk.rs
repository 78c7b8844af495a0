//! What the controller does with the commands of the block device: a namespace as an array
//! of bytes, and what reads and writes of its blocks mean to it.
use crate::block;
use crate::block::nvme_device;
use crate::block::nvme_device::Request;
use crate::nvme;
use crate::nvme::{Exchange, Sqe};
use vstd::prelude::*;

verus! {

/// The command's number, in its lowest byte.
pub open spec fn number_of(s: Sqe) -> int {
    s.cdw0 as int % 256
}

/// The first block that a command moves.
pub open spec fn first_of(s: Sqe) -> int {
    s.cdw10 + s.cdw11 * 0x1_0000_0000
}

/// How many blocks a command moves: its count is one less.
pub open spec fn count_of(s: Sqe) -> int {
    s.cdw12 as int % 0x1_0000 + 1
}

/// The controller has answered that the command succeeded: behind identifier and phase, the
/// status code and its type are zero.
pub open spec fn succeeded(x: Exchange) -> bool {
    x.reply.cid_phase_status as int / 0x2_0000 % 0x800 == 0
}

/// The bytes of the namespace after an exchange: a write (command 1) that succeeded puts
/// what was sent at its blocks.
pub open spec fn step(d: spec_fn(int) -> u8, size: int, x: Exchange) -> spec_fn(int) -> u8 {
    let from = first_of(x.sqe) * size;
    if succeeded(x) && number_of(x.sqe) == 1 {
        |a: int|
            if from <= a < from + count_of(x.sqe) * size {
                x.sent[a - from]
            } else {
                d(a)
            }
    } else {
        d
    }
}

/// A read (command 2) that succeeded gives the bytes of its blocks.
pub open spec fn gives(d: spec_fn(int) -> u8, size: int, x: Exchange) -> bool {
    succeeded(x) && number_of(x.sqe) == 2 ==> forall|k: int|
        0 <= k < count_of(x.sqe) * size ==> #[trigger] x.received[k] == d(
            first_of(x.sqe) * size + k,
        )
}

/// The bytes of the namespace after the first `n` exchanges.
pub open spec fn after(d: spec_fn(int) -> u8, size: int, log: Seq<Exchange>, n: int) -> spec_fn(
    int,
) -> u8
    decreases n,
{
    if n <= 0 {
        d
    } else {
        step(after(d, size, log, n - 1), size, log[n - 1])
    }
}

/// Every read from exchange `from` on gave what the namespace held at that time.
pub open spec fn faithful(d: spec_fn(int) -> u8, size: int, log: Seq<Exchange>, from: int) -> bool {
    forall|i: int|
        from <= i < log.len() ==> gives(#[trigger] after(d, size, log, i), size, log[i])
}

/// Command `j` of a transfer, as the controller reads it.
proof fn lemma_command(q: Request, n: int, j: int)
    requires
        q.size > 0,
        n == q.buf.len() as int / q.size as int,
        0 <= j,
        j * 65535 < n,
        q.lba + n <= u64::MAX,
    ensures
        number_of(q.command(j)) == q.opcode,
        first_of(q.command(j)) == q.lba + j * 65535,
        count_of(q.command(j)) == nvme_device::blocks_of(n, j),
        q.command(j).nsid == q.nsid,
        1 <= nvme_device::blocks_of(n, j) <= 65535,
        j * 65535 + nvme_device::blocks_of(n, j) <= n,
        nvme_device::blocks_of(n, j) < 65535 ==> j * 65535 + nvme_device::blocks_of(n, j) == n,
{
    let s = q.command(j);
    let at = (q.lba + j * 65535) as u64;
    assert(at == q.lba + j * 65535);
    assert(s.cdw10 == at % 0x1_0000_0000 && s.cdw11 == at / 0x1_0000_0000);
    let cid = ((q.cid + 1 + j) % 0x1_0000) as u16;
    assert(s.cdw0 == nvme::packed_cdw0(q.opcode, 0, cid) as u32);
    assert(s.cdw0 == q.opcode + cid * 0x1_0000);
}

/// The answer that a transfer counts as success is one.
proof fn lemma_succeeded(x: Exchange)
    ensures
        succeeded(x) <==> nvme_device::reply_status(x.reply).success(),
{
    let raw = x.reply.cid_phase_status as int / 0x2_0000;
    assert(raw % 0x800 == raw / 0x100 % 8 * 0x100 + raw % 0x100) by {
        assert(raw / 0x800 == raw / 0x100 / 8);
    }
}

/// A part of a transfer, in bytes.
proof fn lemma_bytes(size: int, at: int, c: int, lba: int)
    requires
        size > 0,
        0 <= at,
        0 < c,
        0 <= lba,
    ensures
        0 <= at * size,
        (at + c) * size == at * size + c * size,
        (lba + at) * size == lba * size + at * size,
        c * size >= size,
{
    assert(0 <= at * size && (at + c) * size == at * size + c * size && (lba + at) * size == lba
        * size + at * size && c * size >= size) by (nonlinear_arith)
        requires
            size > 0,
            0 <= at,
            0 < c,
            0 <= lba,
    ;
}

/// Which command moves byte `k`.
proof fn lemma_mover(n: int, size: int, k: int) -> (j: int)
    requires
        size > 0,
        0 <= k < n * size,
    ensures
        0 <= j < nvme_device::commands_for(n),
        j * 65535 < n,
        j * 65535 * size <= k < (j * 65535 + nvme_device::blocks_of(n, j)) * size,
{
    let bi = k / size;
    vstd::arithmetic::div_mod::lemma_fundamental_div_mod(k, size);
    vstd::arithmetic::div_mod::lemma_mod_bound(k, size);
    assert(0 <= bi) by (nonlinear_arith)
        requires
            k >= 0,
            size > 0,
            bi == k / size,
    ;
    assert(bi < n) by (nonlinear_arith)
        requires
            size * bi <= k,
            k < n * size,
            size > 0,
    ;
    let j = bi / 65535;
    let c = nvme_device::blocks_of(n, j);
    assert(j * 65535 <= bi < j * 65535 + c);
    assert(j * 65535 * size <= k < (j * 65535 + c) * size) by (nonlinear_arith)
        requires
            size > 0,
            j * 65535 <= bi,
            bi + 1 <= j * 65535 + c,
            size * bi <= k,
            k < size * bi + size,
    ;
    j
}

/// Reads leave the namespace as it is.
proof fn lemma_reads_keep(
    d: spec_fn(int) -> u8,
    q: Request,
    n: int,
    l0: Seq<Exchange>,
    l1: Seq<Exchange>,
    done: int,
    m: int,
)
    requires
        q.size > 0,
        n == q.buf.len() as int / q.size as int,
        q.opcode == 2,
        q.lba + n <= u64::MAX,
        q.ran(l0, l1, done),
        done <= nvme_device::commands_for(n),
        0 <= m <= done,
    ensures
        after(d, q.size as int, l1, l0.len() + m) == after(d, q.size as int, l1, l0.len() as int),
    decreases m,
{
    if m > 0 {
        lemma_reads_keep(d, q, n, l0, l1, done, m - 1);
        let x = l1[l0.len() + (m - 1)];
        assert(x.sqe == q.command(m - 1));
        lemma_command(q, n, m - 1);
    }
}

/// A read that succeeds fills the buffer with the bytes of the namespace from block `lba` on,
/// in their order, and changes nothing there.
pub proof fn law_blocks_are_read(
    d: spec_fn(int) -> u8,
    q: Request,
    l0: Seq<Exchange>,
    l1: Seq<Exchange>,
    buf: Seq<u8>,
    n: int,
)
    requires
        q.size > 0,
        0 <= n,
        q.buf.len() == n * q.size,
        q.opcode == 2,
        q.lba + n <= u64::MAX,
        q.ended(l0, l1, Ok(())),
        q.received(l0, l1, l1.len() - l0.len(), buf),
        faithful(d, q.size as int, l1, l0.len() as int),
    ensures
        after(d, q.size as int, l1, l1.len() as int) == after(
            d,
            q.size as int,
            l1,
            l0.len() as int,
        ),
        forall|k: int|
            0 <= k < q.buf.len() ==> #[trigger] buf[k] == after(
                d,
                q.size as int,
                l1,
                l0.len() as int,
            )(q.lba * q.size + k),
{
    let size = q.size as int;
    let done = l1.len() - l0.len();
    let before = after(d, size, l1, l0.len() as int);
    lemma_blocks(n, size, q.buf.len() as int);
    lemma_reads_keep(d, q, n, l0, l1, done, done);
    assert(l0.len() + done == l1.len());
    assert forall|k: int| 0 <= k < q.buf.len() implies #[trigger] buf[k] == before(
        q.lba * q.size + k,
    ) by {
        let j = lemma_mover(n, size, k);
        lemma_command(q, n, j);
        let c = nvme_device::blocks_of(n, j);
        let at = j * 65535;
        lemma_bytes(size, at, c, q.lba as int);
        let i = l0.len() + j;
        let x = l1[l0.len() + j];
        assert(x.sqe == q.command(j));
        lemma_succeeded(x);
        if j == done - 1 {
            assert(x == l1.last());
        }
        assert(nvme_device::reply_status(x.reply).success());
        lemma_reads_keep(d, q, n, l0, l1, done, j);
        assert(gives(after(d, size, l1, i), size, l1[i]));
        let p = nvme_device::part(buf, size, j);
        assert(p == x.received);
        assert(p == buf.subrange(at * size, (at + c) * size));
        let o = k - at * size;
        lemma_last(n, size, at, c);
        assert(p[o] == buf[k]);
        assert(x.received[o] == before(first_of(x.sqe) * size + o));
        assert(first_of(x.sqe) * size == q.lba * size + at * size);
    }
}

proof fn lemma_blocks(n: int, size: int, len: int)
    requires
        size > 0,
        0 <= n,
        len == n * size,
    ensures
        len / size == n,
{
    vstd::arithmetic::div_mod::lemma_div_multiples_vanish(n, size);
    assert(size * n == n * size) by (nonlinear_arith);
}

proof fn lemma_last(n: int, size: int, at: int, c: int)
    requires
        size > 0,
        at + c <= n,
    ensures
        (at + c) * size <= n * size,
{
    assert((at + c) * size <= n * size) by (nonlinear_arith)
        requires
            size > 0,
            at + c <= n,
    ;
}

/// How many blocks the first `m` commands move.
spec fn reach(n: int, m: int) -> int {
    if m * 65535 < n {
        m * 65535
    } else {
        n
    }
}

/// The namespace after the first `m` commands of a write.
proof fn lemma_written(
    d: spec_fn(int) -> u8,
    q: Request,
    n: int,
    l0: Seq<Exchange>,
    l1: Seq<Exchange>,
    m: int,
    a: int,
)
    requires
        q.size > 0,
        0 <= n,
        q.buf.len() == n * q.size,
        q.opcode == 1,
        q.lba + n <= u64::MAX,
        q.ended(l0, l1, Ok(())),
        0 <= m <= l1.len() - l0.len(),
    ensures
        after(d, q.size as int, l1, l0.len() + m)(a) == (if q.lba * q.size <= a < q.lba * q.size
            + reach(n, m) * q.size {
            q.buf[a - q.lba * q.size]
        } else {
            after(d, q.size as int, l1, l0.len() as int)(a)
        }),
    decreases m,
{
    let size = q.size as int;
    let done = l1.len() - l0.len();
    lemma_blocks(n, size, q.buf.len() as int);
    if m == 0 {
        assert(reach(n, 0) == 0);
        assert(0 * size == 0) by (nonlinear_arith);
    } else {
        let j = m - 1;
        lemma_written(d, q, n, l0, l1, j, a);
        assert(j * 65535 < n);
        lemma_command(q, n, j);
        let c = nvme_device::blocks_of(n, j);
        let at = j * 65535;
        lemma_bytes(size, at, c, q.lba as int);
        lemma_last(n, size, at, c);
        let x = l1[l0.len() + j];
        assert(x.sqe == q.command(j));
        assert(x.sent == nvme_device::part(q.buf, size, j));
        lemma_succeeded(x);
        if j == done - 1 {
            assert(x == l1.last());
        }
        assert(nvme_device::reply_status(x.reply).success());
        assert(reach(n, j) == at);
        assert(reach(n, m) == at + c);
        assert(x.sent == q.buf.subrange(at * size, (at + c) * size));
        let from = first_of(x.sqe) * size;
        assert(from == q.lba * size + at * size);
        if from <= a < from + c * size {
            assert(x.sent[a - from] == q.buf[a - q.lba * size]);
        }
    }
}

/// A write that succeeds puts the bytes of the buffer into the namespace from block `lba` on,
/// in their order, and leaves every other byte alone.
pub proof fn law_blocks_are_written(
    d: spec_fn(int) -> u8,
    q: Request,
    l0: Seq<Exchange>,
    l1: Seq<Exchange>,
    n: int,
)
    requires
        q.size > 0,
        0 <= n,
        q.buf.len() == n * q.size,
        q.opcode == 1,
        q.lba + n <= u64::MAX,
        q.ended(l0, l1, Ok(())),
    ensures
        forall|a: int|
            #[trigger] after(d, q.size as int, l1, l1.len() as int)(a) == (if q.lba * q.size <= a
                < q.lba * q.size + q.buf.len() {
                q.buf[a - q.lba * q.size]
            } else {
                after(d, q.size as int, l1, l0.len() as int)(a)
            }),
{
    let done = l1.len() - l0.len();
    lemma_blocks(n, q.size as int, q.buf.len() as int);
    assert(reach(n, done) == n);
    assert(l0.len() + done == l1.len());
    assert forall|a: int|
        #[trigger] after(d, q.size as int, l1, l1.len() as int)(a) == (if q.lba * q.size <= a
            < q.lba * q.size + q.buf.len() {
            q.buf[a - q.lba * q.size]
        } else {
            after(d, q.size as int, l1, l0.len() as int)(a)
        }) by {
        lemma_written(d, q, n, l0, l1, done, a);
    }
}

/// Each command of a transfer goes to the device's own namespace, under an identifier of its
/// own.
pub proof fn law_commands_go_to_the_namespace(
    q: Request,
    l0: Seq<Exchange>,
    l1: Seq<Exchange>,
    r: Result<(), block::BlockError>,
    i: int,
    j: int,
)
    requires
        q.ended(l0, l1, r),
        0 <= i < j < l1.len() - l0.len(),
        l1.len() - l0.len() <= 0x1_0000,
    ensures
        l1[l0.len() + i].sqe.nsid == q.nsid,
        l1[l0.len() + j].sqe.nsid == q.nsid,
        l1[l0.len() + i].sqe.cdw0 as int / 0x1_0000 != l1[l0.len() + j].sqe.cdw0 as int / 0x1_0000,
{
    let a = ((q.cid + 1 + i) % 0x1_0000) as u16;
    let b = ((q.cid + 1 + j) % 0x1_0000) as u16;
    assert(l1[l0.len() + i].sqe == q.command(i));
    assert(l1[l0.len() + j].sqe == q.command(j));
    assert(q.command(i).cdw0 == q.opcode + a * 0x1_0000);
    assert(q.command(j).cdw0 == q.opcode + b * 0x1_0000);
}

/// The size of a block is that of the format in use, which the low four bits of byte 26 number
/// among the formats of four bytes from 128 on: what the other formats say does not matter,
/// and an exponent that is one higher doubles it.
pub proof fn law_format_in_use_counts(s: Seq<u8>, t: Seq<u8>, f: int)
    requires
        s.len() == 4096,
        t.len() == 4096,
        f == s[26] as int % 16,
        t[26] == s[26],
    ensures
        t[130 + 4 * f] == s[130 + 4 * f] ==> crate::nvme::namespace_of(t).block_size
            == crate::nvme::namespace_of(s).block_size,
        t[130 + 4 * f] == s[130 + 4 * f] + 1 && t[130 + 4 * f] < 32
            ==> crate::nvme::namespace_of(t).block_size == 2 * crate::nvme::namespace_of(
            s,
        ).block_size,
        s[130 + 4 * f] == 9 ==> crate::nvme::namespace_of(s).block_size == 512,
        crate::nvme::namespace_of(s).size_lba == bytes_number(s.take(8)),
        crate::nvme::namespace_of(s).capacity_lba == bytes_number(s.subrange(8, 16)),
{
    let e = (s[130 + 4 * f] % 32) as nat;
    vstd::arithmetic::power2::lemma2_to64();
    vstd::arithmetic::power2::lemma2_to64_rest();
    vstd::arithmetic::power2::lemma_pow2_unfold(e + 1);
    vstd::arithmetic::power2::lemma_pow2_strictly_increases(e, 32);
    if e < 31 {
        vstd::arithmetic::power2::lemma_pow2_strictly_increases(e + 1, 32);
    }
    lemma_bytes_number(s.take(8));
    lemma_bytes_number(s.subrange(8, 16));
    crate::bytes::lemma_le64_range(s, 0);
    crate::bytes::lemma_le64_range(s, 8);
}

/// The number in bytes, of which the first counts least.
pub open spec fn bytes_number(b: Seq<u8>) -> int
    decreases b.len(),
{
    if b.len() == 0 {
        0
    } else {
        b[0] + 256 * bytes_number(b.drop_first())
    }
}

/// The number in eight bytes.
proof fn lemma_bytes_number(b: Seq<u8>)
    requires
        b.len() == 8,
    ensures
        bytes_number(b) == crate::bytes::le64_at(b, 0),
{
    let b1 = b.drop_first();
    let b2 = b1.drop_first();
    let b3 = b2.drop_first();
    let b4 = b3.drop_first();
    let b5 = b4.drop_first();
    let b6 = b5.drop_first();
    let b7 = b6.drop_first();
    assert(bytes_number(b7.drop_first()) == 0);
    assert(bytes_number(b7) == b[7]);
    assert(bytes_number(b6) == b[6] + 256 * bytes_number(b7));
    assert(bytes_number(b5) == b[5] + 256 * bytes_number(b6));
    assert(bytes_number(b4) == b[4] + 256 * bytes_number(b5));
    assert(bytes_number(b3) == b[3] + 256 * bytes_number(b4));
    assert(bytes_number(b2) == b[2] + 256 * bytes_number(b3));
    assert(bytes_number(b1) == b[1] + 256 * bytes_number(b2));
    assert(bytes_number(b) == b[0] + 256 * bytes_number(b1));
}

} // verus!
