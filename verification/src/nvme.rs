//! NVMe command and completion queues: entries, identify data and rings.
//!
//! The transport below (doorbells, interrupts, buffers) is behind [`Transport`].
use crate::bits;
use crate::bytes;
use vstd::arithmetic::power2::pow2;
use vstd::prelude::*;

pub mod admin_opc;
pub mod cns;
pub mod disk;
pub mod nvm_opc;
pub mod sc_generic;
pub mod sct;

verus! {

/// A submission queue entry.
#[derive(Clone, Copy, Debug, PartialEq, Eq, Structural)]
pub struct Sqe {
    /// Opcode, flags and command identifier.
    pub cdw0: u32,
    /// Namespace, 0 where a command has none.
    pub nsid: u32,
    pub rsvd0: u64,
    /// Metadata pointer.
    pub mptr: u64,
    /// First page of the buffer.
    pub prp1: u64,
    /// Second page, or the page that lists the rest.
    pub prp2: u64,
    pub cdw10: u32,
    pub cdw11: u32,
    pub cdw12: u32,
    pub cdw13: u32,
    pub cdw14: u32,
    pub cdw15: u32,
}

impl Default for Sqe {
    fn default() -> (s: Sqe)
        ensures
            s == Sqe::zero(),
    {
        Sqe {
            cdw0: 0,
            nsid: 0,
            rsvd0: 0,
            mptr: 0,
            prp1: 0,
            prp2: 0,
            cdw10: 0,
            cdw11: 0,
            cdw12: 0,
            cdw13: 0,
            cdw14: 0,
            cdw15: 0,
        }
    }
}

/// A command's first word: opcode, flags and identifier.
pub open spec fn packed_cdw0(opcode: u8, flags: u8, cid: u16) -> int {
    opcode + flags * 0x100 + cid * 0x1_0000
}

/// The command that moves `n_blocks` blocks from `slba` on.
pub open spec fn transfer(opcode: u8, cid: u16, nsid: u32, slba: u64, n_blocks: u16, prp1: u64) -> Sqe {
    Sqe {
        cdw0: packed_cdw0(opcode, 0, cid) as u32,
        nsid,
        prp1,
        cdw10: (slba % 0x1_0000_0000) as u32,
        cdw11: (slba / 0x1_0000_0000) as u32,
        cdw12: if n_blocks == 0 {
            0
        } else {
            (n_blocks - 1) as u32
        },
        ..Sqe::zero()
    }
}

impl Sqe {
    /// An entry with every field clear.
    pub open spec fn zero() -> Sqe {
        Sqe {
            cdw0: 0,
            nsid: 0,
            rsvd0: 0,
            mptr: 0,
            prp1: 0,
            prp2: 0,
            cdw10: 0,
            cdw11: 0,
            cdw12: 0,
            cdw13: 0,
            cdw14: 0,
            cdw15: 0,
        }
    }

    /// Asks for an identify page.
    pub fn identify(cid: u16, cns: u8, nsid: u32, prp1: u64) -> (s: Sqe)
        ensures
            s == (Sqe {
                cdw0: packed_cdw0(admin_opc::IDENTIFY, 0, cid) as u32,
                nsid,
                prp1,
                cdw10: cns as u32,
                ..Sqe::zero()
            }),
    {
        let mut s: Sqe = Sqe::default();
        s.cdw0 = pack_cdw0(admin_opc::IDENTIFY, 0, cid);
        s.nsid = nsid;
        s.prp1 = prp1;
        s.cdw10 = cns as u32;
        s
    }

    /// Reads `n_blocks` blocks from `slba` on. The wire carries the count less
    /// one.
    pub fn read(cid: u16, nsid: u32, slba: u64, n_blocks: u16, prp1: u64) -> (s: Sqe)
        ensures
            s == transfer(nvm_opc::READ, cid, nsid, slba, n_blocks, prp1),
    {
        let mut s: Sqe = Sqe::default();
        s.cdw0 = pack_cdw0(nvm_opc::READ, 0, cid);
        s.nsid = nsid;
        s.prp1 = prp1;
        s.cdw10 = (slba % 0x1_0000_0000) as u32;
        s.cdw11 = (slba / 0x1_0000_0000) as u32;
        s.cdw12 = n_blocks.saturating_sub(1) as u32;
        s
    }

    /// Writes `n_blocks` blocks from `slba` on.
    pub fn write(cid: u16, nsid: u32, slba: u64, n_blocks: u16, prp1: u64) -> (s: Sqe)
        ensures
            s == transfer(nvm_opc::WRITE, cid, nsid, slba, n_blocks, prp1),
    {
        let mut s: Sqe = Sqe::read(cid, nsid, slba, n_blocks, prp1);
        s.cdw0 = pack_cdw0(nvm_opc::WRITE, 0, cid);
        s
    }

    /// Commits what was written.
    pub fn flush(cid: u16, nsid: u32) -> (s: Sqe)
        ensures
            s == (Sqe { cdw0: packed_cdw0(nvm_opc::FLUSH, 0, cid) as u32, nsid, ..Sqe::zero() }),
    {
        let mut s: Sqe = Sqe::default();
        s.cdw0 = pack_cdw0(nvm_opc::FLUSH, 0, cid);
        s.nsid = nsid;
        s
    }
}

/// Packs a command's first word.
pub fn pack_cdw0(opcode: u8, flags: u8, cid: u16) -> (r: u32)
    ensures
        r == packed_cdw0(opcode, flags, cid),
{
    opcode as u32 + flags as u32 * 0x100 + cid as u32 * 0x1_0000
}

/// The opcode of a command.
pub fn opcode_of(cdw0: u32) -> (r: u8)
    ensures
        r == cdw0 % 0x100,
{
    (cdw0 % 0x100) as u8
}

/// The identifier of a command.
pub fn cid_of(cdw0: u32) -> (r: u16)
    ensures
        r == cdw0 / 0x1_0000,
{
    (cdw0 / 0x1_0000) as u16
}

/// A command's opcode and identifier are read back as they were packed, and a
/// read and a write of the same blocks differ in the opcode alone.
pub proof fn law_command_fields(opcode: u8, cid: u16, nsid: u32, slba: u64, n_blocks: u16, prp1: u64)
    ensures
        ({
            let s = transfer(opcode, cid, nsid, slba, n_blocks, prp1);
            &&& s.cdw0 % 0x100 == opcode
            &&& s.cdw0 / 0x1_0000 == cid
            &&& s.cdw10 + s.cdw11 * 0x1_0000_0000 == slba
            &&& n_blocks > 0 ==> s.cdw12 + 1 == n_blocks
            &&& forall|other: u8|
                #[trigger] transfer(other, cid, nsid, slba, n_blocks, prp1) == (Sqe {
                    cdw0: packed_cdw0(other, 0, cid) as u32,
                    ..s
                })
        }),
{
}

/// A completion queue entry.
#[derive(Clone, Copy, Debug, PartialEq, Eq, Structural)]
pub struct Cqe {
    pub dw0: u32,
    pub dw1: u32,
    /// Head and identifier of the submission queue.
    pub sq_head_sqid: u32,
    /// Command identifier, phase tag and status.
    pub cid_phase_status: u32,
}

impl Default for Cqe {
    fn default() -> (c: Cqe)
        ensures
            c == (Cqe { dw0: 0, dw1: 0, sq_head_sqid: 0, cid_phase_status: 0 }),
    {
        Cqe { dw0: 0, dw1: 0, sq_head_sqid: 0, cid_phase_status: 0 }
    }
}

impl Cqe {
    /// The command that ended.
    pub fn cid(&self) -> (r: u16)
        ensures
            r == self.cid_phase_status % 0x1_0000,
    {
        (self.cid_phase_status % 0x1_0000) as u16
    }

    /// The phase tag, which alternates with each pass through the queue.
    pub fn phase(&self) -> (r: bool)
        ensures
            r == (self.cid_phase_status / 0x1_0000 % 2 == 1),
    {
        self.cid_phase_status / 0x1_0000 % 2 == 1
    }

    /// The status bits.
    pub fn status_raw(&self) -> (r: u16)
        ensures
            r == self.cid_phase_status / 0x2_0000,
    {
        (self.cid_phase_status / 0x2_0000) as u16
    }

    /// The status of the command.
    pub fn status(&self) -> (r: StatusField)
        ensures
            r == status_of(self.cid_phase_status as int / 0x2_0000),
    {
        StatusField::from_raw(self.status_raw())
    }

    /// Head of the submission queue.
    pub fn sq_head(&self) -> (r: u16)
        ensures
            r == self.sq_head_sqid % 0x1_0000,
    {
        (self.sq_head_sqid % 0x1_0000) as u16
    }

    /// Identifier of the submission queue.
    pub fn sqid(&self) -> (r: u16)
        ensures
            r == self.sq_head_sqid / 0x1_0000,
    {
        (self.sq_head_sqid / 0x1_0000) as u16
    }
}

/// A decoded status.
#[derive(Clone, Copy, Debug, PartialEq, Eq, Structural)]
pub struct StatusField {
    /// Status code type.
    pub sct: u8,
    /// Status code, read by its type.
    pub sc: u8,
    /// The command should not be tried again.
    pub dnr: bool,
    /// The error log says more.
    pub more: bool,
}

/// The status that the bits `raw` say.
pub open spec fn status_of(raw: int) -> StatusField {
    StatusField {
        sct: (raw / 0x100 % 8) as u8,
        sc: (raw % 0x100) as u8,
        dnr: raw / 0x4000 % 2 == 1,
        more: raw / 0x2000 % 2 == 1,
    }
}

impl StatusField {
    /// A generic status of zero.
    pub open spec fn success(self) -> bool {
        self.sct == 0 && self.sc == 0
    }

    /// Decodes the status bits.
    pub fn from_raw(raw: u16) -> (r: StatusField)
        ensures
            r == status_of(raw as int),
    {
        StatusField {
            sct: (raw / 0x100 % 8) as u8,
            sc: (raw % 0x100) as u8,
            dnr: raw / 0x4000 % 2 == 1,
            more: raw / 0x2000 % 2 == 1,
        }
    }

    /// The command succeeded.
    pub fn is_success(&self) -> (r: bool)
        ensures
            r == self.success(),
    {
        self.sct == 0 && self.sc == 0
    }
}

/// What an identify-controller page says.
#[derive(Clone, Copy, Debug, PartialEq, Eq)]
pub struct ControllerInfo {
    pub vid: u16,
    pub ssvid: u16,
    pub serial: [u8; 20],
    pub model: [u8; 40],
    pub firmware_rev: [u8; 8],
    /// Largest transfer, as a power of two of the smallest page; 0 for no limit.
    pub mdts: u8,
}

/// The `N` bytes at `at`.
fn array_at<const N: usize>(buf: &[u8], at: usize) -> (r: [u8; N])
    requires
        at + N <= buf@.len(),
    ensures
        r@ == buf@.subrange(at as int, at + N),
{
    let mut r: [u8; N] = [0u8; N];
    let mut i: usize = 0;
    while i < N
        invariant
            i <= N,
            at + N <= buf@.len(),
            r@.len() == N,
            forall|j: int| 0 <= j < i ==> r@[j] == buf@[at + j],
        decreases N - i,
    {
        assert(buf.len() == buf@.len());
        r[i] = buf[at + i];
        i = i + 1;
    }
    assert(r@ =~= buf@.subrange(at as int, at + N));
    r
}

impl ControllerInfo {
    /// Reads an identify-controller page.
    pub fn parse(buf: &[u8]) -> (r: ControllerInfo)
        requires
            buf@.len() >= 4096,
        ensures
            r.vid == bytes::le16_at(buf@, 0),
            r.ssvid == bytes::le16_at(buf@, 2),
            r.serial@ == buf@.subrange(4, 24),
            r.model@ == buf@.subrange(24, 64),
            r.firmware_rev@ == buf@.subrange(64, 72),
            r.mdts == buf@[77],
    {
        ControllerInfo {
            vid: bytes::le16(buf, 0),
            ssvid: bytes::le16(buf, 2),
            serial: array_at::<20>(buf, 4),
            model: array_at::<40>(buf, 24),
            firmware_rev: array_at::<8>(buf, 64),
            mdts: buf[77],
        }
    }
}

/// What an identify-namespace page says.
#[derive(Clone, Copy, Debug, PartialEq, Eq)]
pub struct NamespaceInfo {
    /// Size in blocks.
    pub size_lba: u64,
    /// Capacity in blocks.
    pub capacity_lba: u64,
    /// Number of block formats less one.
    pub n_lba_formats: u8,
    /// The format in use.
    pub lba_format_idx: u8,
    /// Bytes in a block.
    pub block_size: u32,
}

/// The namespace that an identify page describes.
pub open spec fn namespace_of(s: Seq<u8>) -> NamespaceInfo {
    let format = s[26] as int % 16;
    NamespaceInfo {
        size_lba: bytes::le64_at(s, 0) as u64,
        capacity_lba: bytes::le64_at(s, 8) as u64,
        n_lba_formats: s[25],
        lba_format_idx: format as u8,
        block_size: pow2((s[128 + 4 * format + 2] % 32) as nat) as u32,
    }
}

impl NamespaceInfo {
    /// Reads an identify-namespace page.
    pub fn parse(buf: &[u8]) -> (r: NamespaceInfo)
        requires
            buf@.len() >= 4096,
        ensures
            r == namespace_of(buf@),
            r.block_size > 0,
    {
        let format: usize = (buf[26] % 16) as usize;
        let exp: u32 = (buf[128 + 4 * format + 2] % 32) as u32;
        NamespaceInfo {
            size_lba: bytes::le64(buf, 0),
            capacity_lba: bytes::le64(buf, 8),
            n_lba_formats: buf[25],
            lba_format_idx: buf[26] % 16,
            block_size: bits::power(exp),
        }
    }

    /// Size in bytes.
    pub fn capacity_bytes(&self) -> (r: u64)
        requires
            self.size_lba * self.block_size <= u64::MAX,
        ensures
            r == self.size_lba * self.block_size,
    {
        self.size_lba * self.block_size as u64
    }
}

/// Index of a submission ring.
pub struct SubmissionQueue {
    pub depth: u16,
    pub tail: u16,
}

impl SubmissionQueue {
    /// An empty ring of `depth` slots.
    pub fn new(depth: u16) -> (r: SubmissionQueue)
        ensures
            r.depth == depth,
            r.tail == 0,
    {
        SubmissionQueue { depth, tail: 0 }
    }

    /// Takes the slot to fill next.
    pub fn advance_tail(&mut self) -> (slot: u16)
        requires
            old(self).depth > 0,
            old(self).tail < u16::MAX,
        ensures
            slot == old(self).tail,
            *final(self) == old(self).advanced(),
    {
        let cur: u16 = self.tail;
        self.tail = (cur + 1) % self.depth;
        cur
    }

    /// The ring after one slot was taken.
    pub open spec fn advanced(self) -> SubmissionQueue {
        SubmissionQueue { depth: self.depth, tail: ((self.tail + 1) % self.depth as int) as u16 }
    }

    /// The ring after `n` slots were taken.
    pub open spec fn advanced_by(self, n: nat) -> SubmissionQueue
        decreases n,
    {
        if n == 0 {
            self
        } else {
            self.advanced_by((n - 1) as nat).advanced()
        }
    }
}

/// A ring hands its slots out in order and starts over after the last: the `n`th
/// slot is `n` modulo the depth.
pub proof fn law_submission_wraps(depth: u16, n: nat)
    requires
        depth > 0,
    ensures
        (SubmissionQueue { depth, tail: 0 }).advanced_by(n) == (SubmissionQueue {
            depth,
            tail: (n % depth as nat) as u16,
        }),
    decreases n,
{
    if n > 0 {
        law_submission_wraps(depth, (n - 1) as nat);
        lemma_next_in_ring((n - 1) as nat, depth as nat);
    } else {
        assert(0nat % depth as nat == 0) by (nonlinear_arith)
            requires
                depth > 0,
        ;
    }
}

/// The step from one index to the next.
proof fn lemma_next_in_ring(n: nat, d: nat)
    requires
        d > 0,
    ensures
        (n % d + 1) % d == (n + 1) % d,
        n % d + 1 < d ==> (n + 1) % d == n % d + 1 && (n + 1) / d == n / d,
        n % d + 1 == d ==> (n + 1) % d == 0 && (n + 1) / d == n / d + 1,
{
    vstd::arithmetic::div_mod::lemma_fundamental_div_mod(n as int, d as int);
    vstd::arithmetic::div_mod::lemma_mod_bound(n as int, d as int);
    let q = n as int / d as int;
    let r = n as int % d as int;
    assert(n + 1 == q * d + (r + 1)) by (nonlinear_arith)
        requires
            n == d * q + r,
    ;
    if r + 1 < d {
        vstd::arithmetic::div_mod::lemma_fundamental_div_mod_converse(
            (n + 1) as int,
            d as int,
            q,
            r + 1,
        );
        vstd::arithmetic::div_mod::lemma_small_mod((r + 1) as nat, d);
    } else {
        assert(n + 1 == (q + 1) * d + 0) by (nonlinear_arith)
            requires
                n + 1 == q * d + (r + 1),
                r + 1 == d,
        ;
        vstd::arithmetic::div_mod::lemma_fundamental_div_mod_converse(
            (n + 1) as int,
            d as int,
            q + 1,
            0,
        );
        vstd::arithmetic::div_mod::lemma_mod_self_0(d as int);
    }
}

/// Index and phase of a completion ring.
pub struct CompletionQueue {
    pub depth: u16,
    pub head: u16,
    /// The phase tag of entries that are new.
    pub phase: bool,
}

impl CompletionQueue {
    /// A ring before its first pass.
    pub fn new(depth: u16) -> (r: CompletionQueue)
        ensures
            r.depth == depth,
            r.head == 0,
            r.phase,
    {
        CompletionQueue { depth, head: 0, phase: true }
    }

    /// Moves past the entry at the head.
    pub fn pop(&mut self)
        requires
            old(self).head < u16::MAX,
        ensures
            *final(self) == old(self).popped(),
    {
        let next: u16 = self.head + 1;
        if next >= self.depth {
            self.head = 0;
            self.phase = !self.phase;
        } else {
            self.head = next;
        }
    }

    /// The ring after one entry was taken: the phase flips where it wraps.
    pub open spec fn popped(self) -> CompletionQueue {
        if self.head + 1 >= self.depth {
            CompletionQueue { depth: self.depth, head: 0, phase: !self.phase }
        } else {
            CompletionQueue { depth: self.depth, head: (self.head + 1) as u16, phase: self.phase }
        }
    }

    /// The ring after `n` entries were taken.
    pub open spec fn popped_by(self, n: nat) -> CompletionQueue
        decreases n,
    {
        if n == 0 {
            self
        } else {
            self.popped_by((n - 1) as nat).popped()
        }
    }
}

/// After `n` entries the head is `n` modulo the depth, and the phase has flipped
/// once for each full pass.
pub proof fn law_phase_flips_on_wrap(depth: u16, n: nat)
    requires
        depth > 0,
    ensures
        (CompletionQueue { depth, head: 0, phase: true }).popped_by(n) == (CompletionQueue {
            depth,
            head: (n % depth as nat) as u16,
            phase: n / depth as nat % 2 == 0,
        }),
    decreases n,
{
    if n > 0 {
        law_phase_flips_on_wrap(depth, (n - 1) as nat);
        lemma_next_in_ring((n - 1) as nat, depth as nat);
    } else {
        assert(0nat % depth as nat == 0 && 0nat / depth as nat == 0) by (nonlinear_arith)
            requires
                depth > 0,
        ;
    }
}

/// One command, the buffer before and after it, and the controller's answer.
pub struct Exchange {
    pub sqe: Sqe,
    pub sent: Seq<u8>,
    pub reply: Cqe,
    pub received: Seq<u8>,
}

/// Exchanges with a controller, in their order.
pub type ExchangeLog = Seq<Exchange>;

/// What carries commands to a controller.
///
/// A controller may answer anything. Contracts speak of the exchanges so far
/// ([`Transport::log`]), which each submission extends by one.
pub trait Transport {
    /// The exchanges so far.
    spec fn log(&self) -> ExchangeLog;

    /// Runs one command to its end. `data` is what the command moves.
    fn submit(&mut self, sqe: &Sqe, data: &mut [u8]) -> (reply: Cqe)
        ensures
            final(data)@.len() == old(data)@.len(),
            final(self).log() == old(self).log().push(
                (Exchange { sqe: *sqe, sent: old(data)@, reply, received: final(data)@ }),
            ),
    ;
}

} // verus!
