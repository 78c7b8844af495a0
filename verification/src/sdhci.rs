//! SD cards behind an SDHCI host controller: the protocol.
//!
//! Command frames and their checksums, the card's registers, the initialisation
//! state machine, and a polling host driver over a register interface. The
//! driver's contracts speak of the register accesses that it makes: which ones,
//! in which order, and what is made of the values read.
use crate::mmio;
use crate::mmio::Access;
pub use crate::mmio::Mmio;
use vstd::prelude::*;

pub mod card;
pub mod cmd;
pub mod cmd_reg;
pub mod int_status;
pub mod ocr;
pub mod r1;
pub mod reg;
pub mod reset_bits;
pub mod state;
pub mod xfer_mode;

verus! {

/// What kind of response a command expects.
#[derive(Clone, Copy, PartialEq, Eq, Structural, Debug)]
pub enum ResponseType {
    NoResponse,
    R1,
    R1b,
    R2,
    R3,
    R6,
    R7,
}

/// A command for the card.
#[derive(Clone, Copy, PartialEq, Eq, Structural, Debug)]
pub struct SdCommand {
    pub cmd: u8,
    pub arg: u32,
    pub rsp: ResponseType,
}

// ---------------------------------------------------------------------------
// Checksums
// ---------------------------------------------------------------------------

/// One step of the seven-bit shift register, kept in the upper bits of a byte.
pub open spec fn crc7_bit(crc: u8) -> u8 {
    if crc & 0x80 != 0 {
        (crc << 1) ^ 0x12
    } else {
        crc << 1
    }
}

/// `n` steps.
pub open spec fn crc7_bits(crc: u8, n: nat) -> u8
    decreases n,
{
    if n == 0 {
        crc
    } else {
        crc7_bit(crc7_bits(crc, (n - 1) as nat))
    }
}

/// The register after the bytes of `s`: each goes in at the top and is shifted
/// through.
pub open spec fn crc7_register(s: Seq<u8>) -> u8
    decreases s.len(),
{
    if s.len() == 0 {
        0
    } else {
        crc7_bits(crc7_register(s.drop_last()) ^ s.last(), 8)
    }
}

/// CRC7 (x^7 + x^3 + 1) of command and response frames.
pub fn crc7(bytes: &[u8]) -> (r: u8)
    ensures
        r == crc7_register(bytes@) >> 1,
{
    let mut crc: u8 = 0;
    let mut i: usize = 0;
    assert(bytes@.take(0) =~= Seq::<u8>::empty());
    while i < bytes.len()
        invariant
            i <= bytes@.len(),
            crc == crc7_register(bytes@.take(i as int)),
        decreases bytes@.len() - i,
    {
        let ghost start = crc ^ bytes@[i as int];
        crc = crc ^ bytes[i];
        let mut k: u8 = 0;
        while k < 8
            invariant
                k <= 8,
                crc == crc7_bits(start, k as nat),
            decreases 8 - k,
        {
            if crc & 0x80 != 0 {
                crc = (crc << 1) ^ 0x12;
            } else {
                crc = crc << 1;
            }
            k = k + 1;
        }
        assert(bytes@.take(i + 1).drop_last() =~= bytes@.take(i as int));
        i = i + 1;
    }
    assert(bytes@.take(i as int) =~= bytes@);
    crc >> 1
}

/// One step of the sixteen-bit shift register.
pub open spec fn crc16_bit(crc: u16) -> u16 {
    if crc & 0x8000 != 0 {
        (crc << 1) ^ 0x1021
    } else {
        crc << 1
    }
}

/// `n` steps.
pub open spec fn crc16_bits(crc: u16, n: nat) -> u16
    decreases n,
{
    if n == 0 {
        crc
    } else {
        crc16_bit(crc16_bits(crc, (n - 1) as nat))
    }
}

/// CRC16 (x^16 + x^12 + x^5 + 1, initial value 0) of a byte string.
pub open spec fn crc16_of(s: Seq<u8>) -> u16
    decreases s.len(),
{
    if s.len() == 0 {
        0
    } else {
        crc16_bits(crc16_of(s.drop_last()) ^ ((s.last() as u16) << 8), 8)
    }
}

/// CRC16 of data blocks.
pub fn crc16_ccitt(bytes: &[u8]) -> (r: u16)
    ensures
        r == crc16_of(bytes@),
{
    let mut crc: u16 = 0;
    let mut i: usize = 0;
    assert(bytes@.take(0) =~= Seq::<u8>::empty());
    while i < bytes.len()
        invariant
            i <= bytes@.len(),
            crc == crc16_of(bytes@.take(i as int)),
        decreases bytes@.len() - i,
    {
        let ghost start = crc ^ ((bytes@[i as int] as u16) << 8);
        crc = crc ^ ((bytes[i] as u16) << 8);
        let mut k: u8 = 0;
        while k < 8
            invariant
                k <= 8,
                crc == crc16_bits(start, k as nat),
            decreases 8 - k,
        {
            if crc & 0x8000 != 0 {
                crc = (crc << 1) ^ 0x1021;
            } else {
                crc = crc << 1;
            }
            k = k + 1;
        }
        assert(bytes@.take(i + 1).drop_last() =~= bytes@.take(i as int));
        i = i + 1;
    }
    assert(bytes@.take(i as int) =~= bytes@);
    crc
}

proof fn lemma_crc7_zero(n: nat)
    ensures
        crc7_bits(0, n) == 0,
    decreases n,
{
    if n > 0 {
        lemma_crc7_zero((n - 1) as nat);
        assert(crc7_bit(0u8) == 0) by (bit_vector);
    }
}

/// A receiver's check succeeds: a message followed by its seven-bit checksum
/// (in the upper bits of a byte) leaves the register at zero.
pub proof fn law_crc7_residue(s: Seq<u8>)
    ensures
        crc7_register(s.push(crc7_register(s))) == 0,
{
    let c = crc7_register(s);
    assert(s.push(c).drop_last() =~= s);
    assert(c ^ c == 0) by (bit_vector);
    lemma_crc7_zero(8);
}

/// All-zero input has checksum zero.
pub proof fn law_crc7_of_zeros(n: nat)
    ensures
        crc7_register(Seq::new(n, |i: int| 0u8)) == 0,
    decreases n,
{
    if n > 0 {
        law_crc7_of_zeros((n - 1) as nat);
        assert(Seq::new(n, |i: int| 0u8).drop_last() =~= Seq::new((n - 1) as nat, |i: int| 0u8));
        assert(0u8 ^ 0u8 == 0) by (bit_vector);
        lemma_crc7_zero(8);
    }
}

impl SdCommand {
    /// A command.
    pub fn new(cmd: u8, arg: u32, rsp: ResponseType) -> (r: SdCommand)
        ensures
            r == (SdCommand { cmd: cmd, arg: arg, rsp: rsp }),
    {
        SdCommand { cmd, arg, rsp }
    }

    /// The first five bytes of the frame: start bits and command, argument.
    pub open spec fn frame_head(self) -> Seq<u8> {
        seq![(64 + self.cmd % 64) as u8] + crate::bytes::be32_bytes(self.arg)
    }

    /// The frame on the wire: start bits, command, argument, checksum, end bit.
    pub fn encode_frame(&self) -> (f: [u8; 6])
        ensures
            f@.take(5) == self.frame_head(),
            f@[5] / 2 == crc7_register(self.frame_head()) >> 1,
            f@[5] % 2 == 1,
    {
        let b0: u8 = 64 + self.cmd % 64;
        let b1: u8 = (self.arg / 0x100_0000) as u8;
        let b2: u8 = (self.arg / 0x1_0000 % 0x100) as u8;
        let b3: u8 = (self.arg / 0x100 % 0x100) as u8;
        let b4: u8 = (self.arg % 0x100) as u8;
        let head: [u8; 5] = [b0, b1, b2, b3, b4];
        assert(head@ =~= self.frame_head());
        let crc: u8 = crc7(&head);
        let ghost full = crc7_register(self.frame_head());
        assert(full >> 1 < 128) by (bit_vector);
        let f: [u8; 6] = [b0, b1, b2, b3, b4, crc * 2 + 1];
        assert(f@.take(5) =~= self.frame_head());
        f
    }
}

// ---------------------------------------------------------------------------
// The card's registers
// ---------------------------------------------------------------------------

/// The card's state.
#[derive(Clone, Copy, PartialEq, Eq, Structural, Debug)]
pub enum CardState {
    Idle,
    Ready,
    Ident,
    Stby,
    Tran,
    Data,
    Rcv,
    Prg,
    Dis,
    Unknown,
}

impl CardState {
    /// The state with the given number.
    pub open spec fn numbered(n: int) -> CardState {
        if n == 0 {
            CardState::Idle
        } else if n == 1 {
            CardState::Ready
        } else if n == 2 {
            CardState::Ident
        } else if n == 3 {
            CardState::Stby
        } else if n == 4 {
            CardState::Tran
        } else if n == 5 {
            CardState::Data
        } else if n == 6 {
            CardState::Rcv
        } else if n == 7 {
            CardState::Prg
        } else if n == 8 {
            CardState::Dis
        } else {
            CardState::Unknown
        }
    }

    /// The state that a card status reports.
    pub fn from_r1(r1: u32) -> (r: CardState)
        ensures
            r == CardState::numbered(r1::state_of(r1)),
    {
        match r1::state(r1) {
            0 => CardState::Idle,
            1 => CardState::Ready,
            2 => CardState::Ident,
            3 => CardState::Stby,
            4 => CardState::Tran,
            5 => CardState::Data,
            6 => CardState::Rcv,
            7 => CardState::Prg,
            8 => CardState::Dis,
            _ => CardState::Unknown,
        }
    }
}

/// Bit `b` of a long response, counted from the most significant bit of its
/// first word.
pub open spec fn response_bit(r2: Seq<u32>, b: int) -> u32 {
    (r2[b / 32] >> ((31 - b % 32) as u32)) & 1
}

/// The number in the `width` bits from bit `lo` on.
pub open spec fn response_field(r2: Seq<u32>, lo: int, width: nat) -> nat
    decreases width,
{
    if width == 0 {
        0
    } else {
        2 * response_field(r2, lo, (width - 1) as nat) + response_bit(r2, lo + width - 1) as nat
    }
}

proof fn lemma_field_bound(r2: Seq<u32>, lo: int, width: nat)
    ensures
        response_field(r2, lo, width) < vstd::arithmetic::power2::pow2(width),
    decreases width,
{
    vstd::arithmetic::power2::lemma2_to64();
    if width > 0 {
        lemma_field_bound(r2, lo, (width - 1) as nat);
        vstd::arithmetic::power2::lemma_pow2_unfold(width);
        let w = r2[(lo + width - 1) / 32];
        let s = (31 - (lo + width - 1) % 32) as u32;
        assert((w >> s) & 1 <= 1) by (bit_vector);
    }
}

/// Reads a field of a long response.
fn get_field(r2: &[u32; 4], lo: u32, width: u32) -> (r: u32)
    requires
        width <= 32,
        lo + width <= 128,
    ensures
        r == response_field(r2@, lo as int, width as nat),
        r < vstd::arithmetic::power2::pow2(width as nat),
{
    let mut v: u64 = 0;
    let mut k: u32 = 0;
    proof {
        vstd::arithmetic::power2::lemma2_to64();
    }
    while k < width
        invariant
            k <= width,
            width <= 32,
            lo + width <= 128,
            v == response_field(r2@, lo as int, k as nat),
            v < 0x1_0000_0000,
        decreases width - k,
    {
        let b: u32 = lo + k;
        let word: u32 = r2[(b / 32) as usize];
        let bit: u32 = (word >> (31 - b % 32)) & 1;
        assert((word >> ((31 - b % 32) as u32)) & 1 <= 1) by (bit_vector);
        v = v * 2 + bit as u64;
        proof {
            lemma_field_bound(r2@, lo as int, (k + 1) as nat);
            vstd::arithmetic::power2::lemma2_to64();
            lemma_pow2_32((k + 1) as nat);
        }
        k = k + 1;
    }
    proof {
        lemma_field_bound(r2@, lo as int, width as nat);
    }
    v as u32
}

proof fn lemma_pow2_32(n: nat)
    requires
        n <= 32,
    ensures
        vstd::arithmetic::power2::pow2(n) <= 0x1_0000_0000,
{
    vstd::arithmetic::power2::lemma2_to64();
    if n < 32 {
        vstd::arithmetic::power2::lemma_pow2_strictly_increases(n, 32);
    }
}

/// The card identification register.
#[derive(Clone, Copy, PartialEq, Eq, Debug)]
pub struct Cid {
    pub manufacturer_id: u8,
    pub oem_application_id: u16,
    pub product_name: [u8; 5],
    pub product_revision: u8,
    pub serial: u32,
    pub manufacturing_date: u16,
}

impl Cid {
    /// The identification that a long response carries.
    pub open spec fn is_read_from(self, r2: Seq<u32>) -> bool {
        &&& self.manufacturer_id == response_field(r2, 0, 8)
        &&& self.oem_application_id == response_field(r2, 8, 16)
        &&& forall|i: int|
            0 <= i < 5 ==> #[trigger] self.product_name@[i] == response_field(r2, 24 + 8 * i, 8)
        &&& self.product_revision == response_field(r2, 64, 8)
        &&& self.serial == response_field(r2, 72, 32)
        &&& self.manufacturing_date == response_field(r2, 104, 12)
    }

    /// Reads the identification out of a long response.
    pub fn parse(r2: [u32; 4]) -> (r: Cid)
        ensures
            r.is_read_from(r2@),
    {
        proof {
            vstd::arithmetic::power2::lemma2_to64();
        }
        let name: [u8; 5] = [
            get_field(&r2, 24, 8) as u8,
            get_field(&r2, 32, 8) as u8,
            get_field(&r2, 40, 8) as u8,
            get_field(&r2, 48, 8) as u8,
            get_field(&r2, 56, 8) as u8,
        ];
        Cid {
            manufacturer_id: get_field(&r2, 0, 8) as u8,
            oem_application_id: get_field(&r2, 8, 16) as u16,
            product_name: name,
            product_revision: get_field(&r2, 64, 8) as u8,
            serial: get_field(&r2, 72, 32),
            manufacturing_date: get_field(&r2, 104, 12) as u16,
        }
    }
}

/// The card-specific data register.
#[derive(Clone, Copy, PartialEq, Eq, Structural, Debug)]
pub struct Csd {
    /// 0 for the first version of the register, 1 for the second.
    pub structure_version: u8,
    pub capacity_bytes: u64,
    pub block_len_bytes: u32,
    pub read_bl_partial: bool,
    pub write_bl_partial: bool,
}

/// The data of a high-capacity card: units of 512 KiB.
pub open spec fn csd_v2(r2: Seq<u32>) -> Csd {
    let c_size = r2[1] as int % 64 * 65536 + r2[2] as int / 65536;
    Csd {
        structure_version: 1,
        capacity_bytes: ((c_size + 1) * 524288) as u64,
        block_len_bytes: 512,
        read_bl_partial: false,
        write_bl_partial: false,
    }
}

/// The data of a standard-capacity card: blocks of a power of two, times a
/// multiplier.
pub open spec fn csd_v1(r2: Seq<u32>) -> Csd {
    let block_len = vstd::arithmetic::power2::pow2((r2[1] as int / 65536 % 16) as nat);
    let c_size = r2[1] as int % 1024 * 4 + r2[2] as int / 0x4000_0000;
    let mult = vstd::arithmetic::power2::pow2((r2[2] as int / 32768 % 8 + 2) as nat);
    Csd {
        structure_version: 0,
        capacity_bytes: ((c_size + 1) * mult * block_len) as u64,
        block_len_bytes: block_len as u32,
        read_bl_partial: false,
        write_bl_partial: false,
    }
}

/// The data that a long response carries; versions after the second are read
/// like the second.
pub open spec fn csd_of(r2: Seq<u32>) -> Csd {
    if r2[0] < 0x4000_0000 {
        csd_v1(r2)
    } else {
        csd_v2(r2)
    }
}

/// A power of two.
fn power_of_two(n: u32) -> (r: u64)
    requires
        n <= 15,
    ensures
        r == vstd::arithmetic::power2::pow2(n as nat),
        1 <= r <= 32768,
{
    let mut r: u64 = 1;
    let mut k: u32 = 0;
    proof {
        vstd::arithmetic::power2::lemma2_to64();
    }
    while k < n
        invariant
            k <= n,
            n <= 15,
            r == vstd::arithmetic::power2::pow2(k as nat),
            1 <= r <= 32768,
        decreases n - k,
    {
        proof {
            vstd::arithmetic::power2::lemma_pow2_unfold((k + 1) as nat);
            vstd::arithmetic::power2::lemma2_to64();
            if k + 1 < 15 {
                vstd::arithmetic::power2::lemma_pow2_strictly_increases((k + 1) as nat, 15);
            }
        }
        r = r * 2;
        k = k + 1;
    }
    r
}

impl Csd {
    /// Reads the data out of a long response.
    pub fn parse(r2: [u32; 4]) -> (r: Csd)
        ensures
            r == csd_of(r2@),
    {
        if r2[0] / 0x4000_0000 == 0 {
            Self::parse_v1(r2)
        } else {
            Self::parse_v2(r2)
        }
    }

    fn parse_v2(r2: [u32; 4]) -> (r: Csd)
        ensures
            r == csd_v2(r2@),
    {
        let c_size: u64 = (r2[1] % 64) as u64 * 65536 + (r2[2] / 65536) as u64;
        Csd {
            structure_version: 1,
            capacity_bytes: (c_size + 1) * 524288,
            block_len_bytes: 512,
            read_bl_partial: false,
            write_bl_partial: false,
        }
    }

    fn parse_v1(r2: [u32; 4]) -> (r: Csd)
        ensures
            r == csd_v1(r2@),
    {
        let block_len: u64 = power_of_two(r2[1] / 65536 % 16);
        let c_size: u64 = (r2[1] % 1024) as u64 * 4 + (r2[2] / 0x4000_0000) as u64;
        let mult: u64 = power_of_two(r2[2] / 32768 % 8 + 2);
        assert((c_size + 1) * mult <= 4096 * 32768 && (c_size + 1) * mult >= 0) by (
            nonlinear_arith)
            requires
                c_size + 1 <= 4096,
                mult <= 32768,
        ;
        assert((c_size + 1) * mult * block_len <= 4096 * 32768 * 32768) by (nonlinear_arith)
            requires
                0 <= (c_size + 1) * mult <= 4096 * 32768,
                block_len <= 32768,
        ;
        Csd {
            structure_version: 0,
            capacity_bytes: (c_size + 1) * mult * block_len,
            block_len_bytes: block_len as u32,
            read_bl_partial: false,
            write_bl_partial: false,
        }
    }

    /// The capacity in blocks of 512 bytes.
    pub fn blocks_512(&self) -> (r: u64)
        ensures
            r == self.capacity_bytes / 512,
    {
        self.capacity_bytes / 512
    }
}

// ---------------------------------------------------------------------------
// Initialisation
// ---------------------------------------------------------------------------

/// The way of a card from power-up to use.
#[derive(Clone, Copy, PartialEq, Eq, Debug)]
pub enum InitStep {
    /// Reset the card.
    GoIdle,
    /// Ask for the interface condition, which tells newer cards.
    SendIfCond,
    /// Ask the card to initialise until it reports that it has.
    SendOpCond { retries: u8, sdhc_capable: bool },
    /// Ask for the identification.
    AllSendCid,
    /// Ask for an address.
    SendRelativeAddr,
    /// Ask for the card-specific data.
    SendCsd { rca: u16 },
    /// Select the card.
    SelectCard { rca: u16 },
    /// The card is ready. [`advance`] does not see the identification any more: who
    /// issues the commands keeps the answer to [`InitStep::AllSendCid`].
    Done { cid: Cid, rca: u16, csd: Csd },
    /// The card failed.
    Error(&'static str),
}

/// How often the card is asked again whether it has initialised.
pub const OP_COND_RETRIES: u8 = 64;

/// What the host asks for in a voltage negotiation.
pub open spec fn op_cond_arg(sdhc_capable: bool) -> int {
    ocr::V32_33 + ocr::V33_34 + (if sdhc_capable {
        ocr::CCS as int
    } else {
        0
    })
}

/// The command of a step.
pub open spec fn command_of(step: InitStep) -> Option<SdCommand> {
    match step {
        InitStep::GoIdle => Some(
            SdCommand { cmd: cmd::GO_IDLE_STATE, arg: 0, rsp: ResponseType::NoResponse },
        ),
        InitStep::SendIfCond => Some(
            SdCommand { cmd: cmd::SEND_IF_COND, arg: 0x1AA, rsp: ResponseType::R7 },
        ),
        InitStep::SendOpCond { sdhc_capable, .. } => Some(
            SdCommand {
                cmd: cmd::SD_SEND_OP_COND,
                arg: op_cond_arg(sdhc_capable) as u32,
                rsp: ResponseType::R3,
            },
        ),
        InitStep::AllSendCid => Some(
            SdCommand { cmd: cmd::ALL_SEND_CID, arg: 0, rsp: ResponseType::R2 },
        ),
        InitStep::SendRelativeAddr => Some(
            SdCommand { cmd: cmd::SEND_RELATIVE_ADDR, arg: 0, rsp: ResponseType::R6 },
        ),
        InitStep::SendCsd { rca } => Some(
            SdCommand { cmd: cmd::SEND_CSD, arg: (rca * 65536) as u32, rsp: ResponseType::R2 },
        ),
        InitStep::SelectCard { rca } => Some(
            SdCommand {
                cmd: cmd::SELECT_CARD,
                arg: (rca * 65536) as u32,
                rsp: ResponseType::R1b,
            },
        ),
        InitStep::Done { .. } | InitStep::Error(_) => None,
    }
}

/// The command to issue in a step; the negotiation has to be announced by
/// [`cmd::APP_CMD`].
pub fn next_command(step: InitStep) -> (r: Option<SdCommand>)
    ensures
        r == command_of(step),
{
    match step {
        InitStep::GoIdle => Some(
            SdCommand::new(cmd::GO_IDLE_STATE, 0, ResponseType::NoResponse),
        ),
        InitStep::SendIfCond => Some(SdCommand::new(cmd::SEND_IF_COND, 0x1AA, ResponseType::R7)),
        InitStep::SendOpCond { retries: _, sdhc_capable } => {
            let host: u32 = ocr::host_voltage_window() + if sdhc_capable { ocr::CCS } else { 0 };
            Some(SdCommand::new(cmd::SD_SEND_OP_COND, host, ResponseType::R3))
        },
        InitStep::AllSendCid => Some(SdCommand::new(cmd::ALL_SEND_CID, 0, ResponseType::R2)),
        InitStep::SendRelativeAddr => Some(
            SdCommand::new(cmd::SEND_RELATIVE_ADDR, 0, ResponseType::R6),
        ),
        InitStep::SendCsd { rca } => Some(
            SdCommand::new(cmd::SEND_CSD, rca as u32 * 65536, ResponseType::R2),
        ),
        InitStep::SelectCard { rca } => Some(
            SdCommand::new(cmd::SELECT_CARD, rca as u32 * 65536, ResponseType::R1b),
        ),
        InitStep::Done { .. } | InitStep::Error(_) => None,
    }
}

/// `after` is the step that follows `step` when the card has answered `r1` (short)
/// or `r2` (long).
pub open spec fn step_follows(step: InitStep, r1: u32, r2: Seq<u32>, after: InitStep) -> bool {
    match step {
        InitStep::GoIdle => after is SendIfCond,
        InitStep::SendIfCond => after == (InitStep::SendOpCond {
            retries: 0,
            sdhc_capable: r1 % 256 == 0xAA,
        }),
        InitStep::SendOpCond { retries, sdhc_capable } => if r1 & ocr::BUSY != 0 {
            after is AllSendCid
        } else if retries < OP_COND_RETRIES {
            after == (InitStep::SendOpCond {
                retries: (retries + 1) as u8,
                sdhc_capable: sdhc_capable,
            })
        } else {
            after matches InitStep::Error(e) && e@ == "ACMD41 retry budget exhausted"@
        },
        InitStep::AllSendCid => after is SendRelativeAddr,
        InitStep::SendRelativeAddr => after == (InitStep::SendCsd { rca: (r1 / 65536) as u16 }),
        InitStep::SendCsd { rca } => after == (InitStep::SelectCard { rca: rca }),
        InitStep::SelectCard { rca } => if r1 & r1::ANY_ERROR != 0 {
            after matches InitStep::Error(e) && e@ == "SelectCard returned an error bit"@
        } else {
            after matches InitStep::Done { cid, rca: a, csd } && a == rca && csd == csd_of(r2)
                && cid.is_read_from(seq![0u32, 0, 0, 0])
        },
        InitStep::Done { .. } | InitStep::Error(_) => after == step,
    }
}

/// Goes on with the card's answer.
pub fn advance(step: InitStep, r1: u32, r2: [u32; 4]) -> (after: InitStep)
    ensures
        step_follows(step, r1, r2@, after),
{
    match step {
        InitStep::GoIdle => InitStep::SendIfCond,
        InitStep::SendIfCond => InitStep::SendOpCond {
            retries: 0,
            sdhc_capable: r1 % 256 == 0xAA,
        },
        InitStep::SendOpCond { retries, sdhc_capable } => {
            if r1 & ocr::BUSY != 0 {
                InitStep::AllSendCid
            } else if retries < OP_COND_RETRIES {
                InitStep::SendOpCond { retries: retries + 1, sdhc_capable }
            } else {
                InitStep::Error("ACMD41 retry budget exhausted")
            }
        },
        InitStep::AllSendCid => InitStep::SendRelativeAddr,
        InitStep::SendRelativeAddr => InitStep::SendCsd { rca: (r1 / 65536) as u16 },
        InitStep::SendCsd { rca } => InitStep::SelectCard { rca },
        InitStep::SelectCard { rca } => {
            if r1 & r1::ANY_ERROR != 0 {
                InitStep::Error("SelectCard returned an error bit")
            } else {
                let none: [u32; 4] = [0, 0, 0, 0];
                assert(none@ =~= seq![0u32, 0, 0, 0]);
                InitStep::Done { cid: Cid::parse(none), rca, csd: Csd::parse(r2) }
            }
        },
        InitStep::Done { .. } | InitStep::Error(_) => step,
    }
}

/// How many steps are left at most.
pub open spec fn init_steps_left(step: InitStep) -> int {
    match step {
        InitStep::GoIdle => 71,
        InitStep::SendIfCond => 70,
        InitStep::SendOpCond { retries, .. } => if retries < OP_COND_RETRIES {
            69 - retries
        } else {
            5
        },
        InitStep::AllSendCid => 4,
        InitStep::SendRelativeAddr => 3,
        InitStep::SendCsd { .. } => 2,
        InitStep::SelectCard { .. } => 1,
        InitStep::Done { .. } | InitStep::Error(_) => 0,
    }
}

/// Initialisation ends after a bounded number of commands, whatever the card
/// answers; a finished one stays finished, and commands are issued exactly until
/// then.
pub proof fn law_init_ends(step: InitStep, r1: u32, r2: Seq<u32>, after: InitStep)
    requires
        step_follows(step, r1, r2, after),
    ensures
        init_steps_left(step) >= 0,
        command_of(step) is Some <==> init_steps_left(step) > 0,
        init_steps_left(step) > 0 ==> init_steps_left(after) < init_steps_left(step),
        init_steps_left(step) == 0 ==> after == step,
{
}

// ---------------------------------------------------------------------------
// The host controller
// ---------------------------------------------------------------------------

/// Why a transfer failed.
#[derive(Clone, Copy, PartialEq, Eq, Structural, Debug)]
pub enum HostError {
    Timeout,
    CommandTimeout,
    CommandCrc,
    CommandIndex,
    CommandEndBit,
    DataTimeout,
    DataCrc,
    DataEndBit,
    BadResponse,
}

/// The error that an interrupt status reports: the first of the listed ones
/// whose bit is set.
pub open spec fn status_error(s: u32) -> Option<HostError> {
    if s & int_status::ERR_ANY == 0 {
        None
    } else if s & int_status::CMD_TIMEOUT != 0 {
        Some(HostError::CommandTimeout)
    } else if s & int_status::CMD_CRC_ERROR != 0 {
        Some(HostError::CommandCrc)
    } else if s & int_status::CMD_INDEX_ERROR != 0 {
        Some(HostError::CommandIndex)
    } else if s & int_status::CMD_END_BIT_ERROR != 0 {
        Some(HostError::CommandEndBit)
    } else if s & int_status::DATA_TIMEOUT != 0 {
        Some(HostError::DataTimeout)
    } else if s & int_status::DATA_CRC_ERROR != 0 {
        Some(HostError::DataCrc)
    } else if s & int_status::DATA_END_BIT_ERROR != 0 {
        Some(HostError::DataEndBit)
    } else {
        Some(HostError::Timeout)
    }
}

/// Decodes an interrupt status.
pub fn classify_int_status(status: u32) -> (r: Result<(), HostError>)
    ensures
        match r {
            Ok(()) => status_error(status) is None,
            Err(e) => status_error(status) == Some(e),
        },
{
    if status & int_status::ERR_ANY == 0 {
        return Ok(());
    }
    if status & int_status::CMD_TIMEOUT != 0 {
        return Err(HostError::CommandTimeout);
    }
    if status & int_status::CMD_CRC_ERROR != 0 {
        return Err(HostError::CommandCrc);
    }
    if status & int_status::CMD_INDEX_ERROR != 0 {
        return Err(HostError::CommandIndex);
    }
    if status & int_status::CMD_END_BIT_ERROR != 0 {
        return Err(HostError::CommandEndBit);
    }
    if status & int_status::DATA_TIMEOUT != 0 {
        return Err(HostError::DataTimeout);
    }
    if status & int_status::DATA_CRC_ERROR != 0 {
        return Err(HostError::DataCrc);
    }
    if status & int_status::DATA_END_BIT_ERROR != 0 {
        return Err(HostError::DataEndBit);
    }
    Err(HostError::Timeout)
}

/// The response registers after a command.
#[derive(Clone, Copy, PartialEq, Eq, Debug)]
pub struct HostResponse {
    pub r: [u32; 4],
}

impl HostResponse {
    /// The short response.
    pub fn short(&self) -> (r: u32)
        ensures
            r == self.r@[0],
    {
        self.r[0]
    }

    /// The long response.
    pub fn long(&self) -> (r: [u32; 4])
        ensures
            r == self.r,
    {
        self.r
    }
}

/// Bytes in a block.
pub const BLOCK_SIZE: usize = 512;

/// A card that has been initialised.
#[derive(Clone, Copy, PartialEq, Eq, Structural, Debug)]
pub struct CardInfo {
    pub rca: u16,
    pub csd: Csd,
    /// Capacity in blocks.
    pub blocks: u64,
}

// ---------------------------------------------------------------------------
// What the driver does, as relations between access traces
// ---------------------------------------------------------------------------

/// From `t0` to `t1` the present state was polled until the command line was
/// free, at most `budget` times.
pub open spec fn waited_idle(
    t0: Seq<Access>,
    t1: Seq<Access>,
    budget: u32,
    r: Result<(), HostError>,
) -> bool {
    exists|vals: Seq<u32>| #[trigger] polled_idle(t0, t1, budget, r, vals)
}

/// The same, with the values that were read.
pub open spec fn polled_idle(
    t0: Seq<Access>,
    t1: Seq<Access>,
    budget: u32,
    r: Result<(), HostError>,
    vals: Seq<u32>,
) -> bool {
    &&& t1 == t0 + mmio::reads(reg::PRESENT_STATE as int, vals)
    &&& vals.len() <= budget
    &&& forall|i: int|
        0 <= i < vals.len() - 1 ==> (#[trigger] vals[i]) & state::CMD_INHIBIT != 0
    &&& match r {
        Ok(()) => vals.len() > 0 && vals.last() & state::CMD_INHIBIT == 0,
        Err(e) => e == HostError::Timeout && vals.len() == budget && (vals.len() > 0 ==> vals.last()
            & state::CMD_INHIBIT != 0),
    }
}

/// From `t0` to `t1` the controller was reset and its reset register polled
/// until it cleared.
pub open spec fn reset_done(
    t0: Seq<Access>,
    t1: Seq<Access>,
    budget: u32,
    r: Result<(), HostError>,
) -> bool {
    exists|w: u32, vals: Seq<u32>| #[trigger] reset_polled(t0, t1, budget, r, w, vals)
}

/// The same, with the values that were read.
pub open spec fn reset_polled(
    t0: Seq<Access>,
    t1: Seq<Access>,
    budget: u32,
    r: Result<(), HostError>,
    w: u32,
    vals: Seq<u32>,
) -> bool {
    let at = reg::CLOCK_CONTROL as int;
    let off = reg::SOFTWARE_RESET as int;
    &&& t1 == t0.push(Access::Read(at, w)).push(
        Access::Write(at, mmio::with_byte(w, off, reset_bits::ALL) as u32),
    ) + mmio::reads(at, vals)
    &&& vals.len() <= budget
    &&& forall|i: int| 0 <= i < vals.len() - 1 ==> resetting(#[trigger] vals[i])
    &&& match r {
        Ok(()) => vals.len() > 0 && !resetting(vals.last()),
        Err(e) => e == HostError::Timeout && vals.len() == budget && (vals.len() > 0
            ==> resetting(vals.last())),
    }
}

/// The reset bit is still set in the register word.
pub open spec fn resetting(w: u32) -> bool {
    mmio::byte_at(w, reg::SOFTWARE_RESET as int) as u8 & reset_bits::ALL != 0
}

/// A status with neither the awaited flag nor an error.
pub open spec fn quiet(s: u32, flag: u32) -> bool {
    s & flag == 0 && s & int_status::ERR_ANY == 0
}

/// From `t0` to `t1` the interrupt status was polled for `flag`, which was then
/// acknowledged.
pub open spec fn waited_int(
    t0: Seq<Access>,
    t1: Seq<Access>,
    flag: u32,
    budget: u32,
    r: Result<(), HostError>,
) -> bool {
    exists|vals: Seq<u32>| #[trigger] polled_int(t0, t1, flag, budget, r, vals)
}

/// The same, with the values that were read.
pub open spec fn polled_int(
    t0: Seq<Access>,
    t1: Seq<Access>,
    flag: u32,
    budget: u32,
    r: Result<(), HostError>,
    vals: Seq<u32>,
) -> bool {
    let seen = t0 + mmio::reads(reg::INT_STATUS as int, vals);
    &&& vals.len() <= budget
    &&& forall|i: int| 0 <= i < vals.len() - 1 ==> quiet(#[trigger] vals[i], flag)
    &&& match r {
        Ok(()) => vals.len() > 0 && vals.last() & flag != 0 && t1 == seen.push(
            Access::Write(reg::INT_STATUS as int, flag),
        ),
        Err(e) => t1 == seen && if vals.len() > 0 && !quiet(vals.last(), flag) {
            vals.last() & flag == 0 && status_error(vals.last()) == Some(e)
        } else {
            vals.len() == budget && e == HostError::Timeout
        },
    }
}

/// From `t0` to `t1` command `c` was issued on a free command line.
pub open spec fn issued_idle(
    t0: Seq<Access>,
    t1: Seq<Access>,
    c: SdCommand,
    data_present: bool,
    budget: u32,
    r: Result<HostResponse, HostError>,
) -> bool {
    exists|w: u32, vals: Seq<u32>|
        #[trigger] issued_with(t0, t1, c, data_present, budget, r, w, vals)
}

/// The same, with the values that were read: the argument goes out before the
/// command, the status is polled until the command has ended, and on success
/// completion is acknowledged and the four response registers are read.
pub open spec fn issued_with(
    t0: Seq<Access>,
    t1: Seq<Access>,
    c: SdCommand,
    data_present: bool,
    budget: u32,
    r: Result<HostResponse, HostError>,
    w: u32,
    vals: Seq<u32>,
) -> bool {
    let sent = commanded(t0.push(Access::Write(reg::ARGUMENT as int, c.arg)), w, cmd_reg::encoded(
        c.cmd,
        c.rsp,
        data_present,
    ) as u16);
    let seen = sent + mmio::reads(reg::INT_STATUS as int, vals);
    let ended = vals.len() > 0 && vals.last() & int_status::CMD_ENDED != 0;
    &&& vals.len() <= budget
    &&& forall|i: int|
        0 <= i < vals.len() - 1 ==> (#[trigger] vals[i]) & int_status::CMD_ENDED == 0
    &&& match r {
        Ok(resp) => ended && status_error(vals.last()) is None && t1 == seen.push(
            Access::Write(reg::INT_STATUS as int, int_status::CMD_COMPLETE),
        ).push(Access::Read(reg::RESPONSE0 as int, resp.r@[0])).push(
            Access::Read(reg::RESPONSE1 as int, resp.r@[1]),
        ).push(Access::Read(reg::RESPONSE2 as int, resp.r@[2])).push(
            Access::Read(reg::RESPONSE3 as int, resp.r@[3]),
        ),
        Err(e) => t1 == seen && if ended {
            status_error(vals.last()) == Some(e)
        } else {
            vals.len() == budget && e == HostError::Timeout
        },
    }
}

/// The command register, in the upper half of a word that read as `w`, is
/// written.
pub open spec fn commanded(t: Seq<Access>, w: u32, value: u16) -> Seq<Access> {
    let at = reg::TRANSFER_MODE as int;
    t.push(Access::Read(at, w)).push(
        Access::Write(at, mmio::with_half(w, reg::COMMAND as int, value) as u32),
    )
}

/// From `t0` to `t1` command `c` was issued.
pub open spec fn issued(
    t0: Seq<Access>,
    t1: Seq<Access>,
    c: SdCommand,
    data_present: bool,
    budget: u32,
    r: Result<HostResponse, HostError>,
) -> bool {
    exists|ta: Seq<Access>, ra: Result<(), HostError>|
        #[trigger] waited_idle(t0, ta, budget, ra) && match ra {
            Ok(()) => issued_idle(ta, t1, c, data_present, budget, r),
            Err(e) => t1 == ta && r == Err::<HostResponse, HostError>(e),
        }
}

/// A transfer of one block was set up: block size and count, address, transfer
/// mode and command; `w` holds the register words that were read on the way.
pub open spec fn staged(t: Seq<Access>, w: Seq<u32>, lba: u32, mode: u16, command: u16) -> Seq<
    Access,
> {
    let sizes = reg::BLOCK_SIZE as int;
    let modes = reg::TRANSFER_MODE as int;
    commanded(
        t.push(Access::Read(sizes, w[0])).push(
            Access::Write(sizes, mmio::with_half(w[0], sizes, 512) as u32),
        ).push(Access::Read(sizes, w[1])).push(
            Access::Write(sizes, mmio::with_half(w[1], reg::BLOCK_COUNT as int, 1) as u32),
        ).push(Access::Write(reg::ARGUMENT as int, lba)).push(Access::Read(modes, w[2])).push(
            Access::Write(modes, mmio::with_half(w[2], modes, mode) as u32),
        ),
        w[3],
        command,
    )
}

/// The bytes of `words`, least significant first.
pub open spec fn word_bytes(words: Seq<u32>) -> Seq<u8> {
    Seq::new(words.len() * 4, |i: int| mmio::byte_at(words[i / 4], i % 4) as u8)
}

/// The words that `bytes` make, least significant byte first.
pub open spec fn byte_words(bytes: Seq<u8>) -> Seq<u32> {
    Seq::new(bytes.len() / 4, |i: int| crate::bytes::le32_at(bytes, 4 * i) as u32)
}

/// Reading the bytes of words gives the words back.
pub proof fn law_words_round_trip(words: Seq<u32>)
    ensures
        byte_words(word_bytes(words)) == words,
{
    let b = word_bytes(words);
    assert forall|i: int| 0 <= i < words.len() implies #[trigger] byte_words(b)[i] == words[i] by {
        lemma_word_back(words, b, i);
    }
    assert(byte_words(b) =~= words);
}

/// One word of the bytes of words.
proof fn lemma_word_back(words: Seq<u32>, b: Seq<u8>, i: int)
    requires
        b == word_bytes(words),
        0 <= i < words.len(),
    ensures
        crate::bytes::le32_at(b, 4 * i) == words[i],
{
    let w = words[i] as int;
    assert(b[4 * i] == mmio::byte_at(words[i], 0) as u8);
    assert(b[4 * i + 1] == mmio::byte_at(words[i], 1) as u8);
    assert(b[4 * i + 2] == mmio::byte_at(words[i], 2) as u8);
    assert(b[4 * i + 3] == mmio::byte_at(words[i], 3) as u8);
    assert(w == w % 0x100 + w / 0x100 % 0x100 * 0x100 + w / 0x1_0000 % 0x100 * 0x1_0000 + w
        / 0x100_0000 * 0x100_0000) by {
        assert(w / 0x1_0000 == w / 0x100 / 0x100);
        assert(w / 0x100_0000 == w / 0x1_0000 / 0x100);
    }
}

/// The end of a transfer: the data went over, and completion is awaited.
pub open spec fn finished(
    t0: Seq<Access>,
    t1: Seq<Access>,
    budget: u32,
    status: u32,
    r: Result<u32, HostError>,
) -> bool {
    exists|rd: Result<(), HostError>|
        #[trigger] waited_int(t0, t1, int_status::TRANSFER_COMPLETE, budget, rd) && match rd {
            Ok(()) => r == Ok::<u32, HostError>(status),
            Err(e) => r == Err::<u32, HostError>(e),
        }
}

/// The data phase of a read: the buffer is awaited and its 128 words are read
/// into `b1`; before that `b0` is untouched.
pub open spec fn read_data(
    t0: Seq<Access>,
    t1: Seq<Access>,
    budget: u32,
    status: u32,
    r: Result<u32, HostError>,
    b0: Seq<u8>,
    b1: Seq<u8>,
) -> bool {
    exists|ta: Seq<Access>, ra: Result<(), HostError>|
        #[trigger] waited_int(t0, ta, int_status::BUF_READ_READY, budget, ra) && match ra {
            Err(e) => t1 == ta && r == Err::<u32, HostError>(e) && b1 == b0,
            Ok(()) => {
                let words = byte_words(b1);
                &&& b1.len() == BLOCK_SIZE
                &&& finished(
                    ta + mmio::reads(reg::BUFFER_DATA_PORT as int, words),
                    t1,
                    budget,
                    status,
                    r,
                )
            },
        }
}

/// The data phase of a write: the buffer is awaited and the 128 words of `b`
/// are written.
pub open spec fn write_data(
    t0: Seq<Access>,
    t1: Seq<Access>,
    budget: u32,
    status: u32,
    r: Result<u32, HostError>,
    b: Seq<u8>,
) -> bool {
    exists|ta: Seq<Access>, ra: Result<(), HostError>|
        #[trigger] waited_int(t0, ta, int_status::BUF_WRITE_READY, budget, ra) && match ra {
            Err(e) => t1 == ta && r == Err::<u32, HostError>(e),
            Ok(()) => finished(
                ta + writes(reg::BUFFER_DATA_PORT as int, byte_words(b)),
                t1,
                budget,
                status,
                r,
            ),
        }
}

/// Writes of the values `vals` to one register.
pub open spec fn writes(off: int, vals: Seq<u32>) -> Seq<Access> {
    vals.map_values(|v: u32| Access::Write(off, v))
}

/// The transfer mode of a read of one block.
pub const READ_MODE: u16 = xfer_mode::READ_DIR + xfer_mode::BLOCK_COUNT_ENABLE;

/// The part of a read that follows the command: its end is awaited, the card's
/// status is read, and the data follow.
pub open spec fn read_commanded(
    t0: Seq<Access>,
    t1: Seq<Access>,
    budget: u32,
    r: Result<u32, HostError>,
    b0: Seq<u8>,
    b1: Seq<u8>,
) -> bool {
    exists|ta: Seq<Access>, ra: Result<(), HostError>|
        #[trigger] waited_int(t0, ta, int_status::CMD_COMPLETE, budget, ra) && match ra {
            Err(e) => t1 == ta && r == Err::<u32, HostError>(e) && b1 == b0,
            Ok(()) => exists|s: u32|
                #[trigger] read_data(
                    ta.push(Access::Read(reg::RESPONSE0 as int, s)),
                    t1,
                    budget,
                    s,
                    r,
                    b0,
                    b1,
                ),
        }
}

/// From `t0` to `t1` block `lba` was read into the buffer, which went from `b0`
/// to `b1`; `r` is the card's status.
pub open spec fn block_read(
    t0: Seq<Access>,
    t1: Seq<Access>,
    lba: u32,
    budget: u32,
    r: Result<u32, HostError>,
    b0: Seq<u8>,
    b1: Seq<u8>,
) -> bool {
    exists|ta: Seq<Access>, ra: Result<(), HostError>|
        #[trigger] waited_idle(t0, ta, budget, ra) && match ra {
            Err(e) => t1 == ta && r == Err::<u32, HostError>(e) && b1 == b0,
            Ok(()) => exists|w: Seq<u32>|
                read_commanded(
                    #[trigger] staged(
                        ta,
                        w,
                        lba,
                        READ_MODE,
                        cmd_reg::encoded(cmd::READ_SINGLE_BLOCK, ResponseType::R1, true) as u16,
                    ),
                    t1,
                    budget,
                    r,
                    b0,
                    b1,
                ),
        }
}

/// The part of a write that follows the command.
pub open spec fn write_commanded(
    t0: Seq<Access>,
    t1: Seq<Access>,
    budget: u32,
    r: Result<u32, HostError>,
    b: Seq<u8>,
) -> bool {
    exists|ta: Seq<Access>, ra: Result<(), HostError>|
        #[trigger] waited_int(t0, ta, int_status::CMD_COMPLETE, budget, ra) && match ra {
            Err(e) => t1 == ta && r == Err::<u32, HostError>(e),
            Ok(()) => exists|s: u32|
                #[trigger] write_data(
                    ta.push(Access::Read(reg::RESPONSE0 as int, s)),
                    t1,
                    budget,
                    s,
                    r,
                    b,
                ),
        }
}

/// From `t0` to `t1` the bytes `b` were written to block `lba`; `r` is the card's
/// status.
pub open spec fn block_written(
    t0: Seq<Access>,
    t1: Seq<Access>,
    lba: u32,
    budget: u32,
    r: Result<u32, HostError>,
    b: Seq<u8>,
) -> bool {
    exists|ta: Seq<Access>, ra: Result<(), HostError>|
        #[trigger] waited_idle(t0, ta, budget, ra) && match ra {
            Err(e) => t1 == ta && r == Err::<u32, HostError>(e),
            Ok(()) => exists|w: Seq<u32>|
                write_commanded(
                    #[trigger] staged(
                        ta,
                        w,
                        lba,
                        xfer_mode::BLOCK_COUNT_ENABLE,
                        cmd_reg::encoded(cmd::WRITE_BLOCK, ResponseType::R1, true) as u16,
                    ),
                    t1,
                    budget,
                    r,
                    b,
                ),
        }
}

// ---------------------------------------------------------------------------
// The driver
// ---------------------------------------------------------------------------

/// Polling driver of a host controller.
pub struct Host<M: Mmio> {
    pub mmio: M,
    /// How often a status is polled before the driver gives up.
    pub poll_budget: u32,
}

impl<M: Mmio> Host<M> {
    /// A driver with a generous polling budget.
    pub fn new(mmio: M) -> (r: Host<M>)
        ensures
            r.mmio == mmio,
            r.poll_budget == 1_000_000,
    {
        Host { mmio, poll_budget: 1_000_000 }
    }

    /// Resets the whole controller.
    pub fn reset_all(&mut self) -> (r: Result<(), HostError>)
        ensures
            final(self).poll_budget == old(self).poll_budget,
            reset_done(
                old(self).mmio.trace(),
                final(self).mmio.trace(),
                old(self).poll_budget,
                r,
            ),
    {
        let ghost t0 = self.mmio.trace();
        let budget: u32 = self.poll_budget;
        self.mmio.write8(reg::SOFTWARE_RESET, reset_bits::ALL);
        let ghost w = mmio::value_of(self.mmio.trace().drop_last().last());
        let ghost t1 = self.mmio.trace();
        let ghost mut vals: Seq<u32> = Seq::empty();
        assert(t1 =~= t1 + mmio::reads(reg::CLOCK_CONTROL as int, vals));
        let mut n: u32 = 0;
        while n < budget
            invariant
                n <= budget,
                budget == old(self).poll_budget,
                self.poll_budget == budget,
                vals.len() == n,
                t0 == old(self).mmio.trace(),
                t1 == t0.push(Access::Read(reg::CLOCK_CONTROL as int, w)).push(
                    Access::Write(
                        reg::CLOCK_CONTROL as int,
                        mmio::with_byte(w, reg::SOFTWARE_RESET as int, reset_bits::ALL) as u32,
                    ),
                ),
                self.mmio.trace() == t1 + mmio::reads(reg::CLOCK_CONTROL as int, vals),
                forall|i: int| 0 <= i < n ==> resetting(#[trigger] vals[i]),
            decreases budget - n,
        {
            let v: u8 = self.mmio.read8(reg::SOFTWARE_RESET);
            proof {
                let word = mmio::value_of(self.mmio.trace().last());
                mmio::lemma_reads_push(reg::CLOCK_CONTROL as int, vals, word);
                vals = vals.push(word);
                assert(self.mmio.trace() =~= t1 + mmio::reads(reg::CLOCK_CONTROL as int, vals));
            }
            if v & reset_bits::ALL == 0 {
                assert(reset_polled(t0, self.mmio.trace(), budget, Ok(()), w, vals));
                return Ok(());
            }
            n = n + 1;
        }
        assert(reset_polled(t0, self.mmio.trace(), budget, Err(HostError::Timeout), w, vals));
        Err(HostError::Timeout)
    }

    /// Waits until the command line is free.
    pub fn wait_cmd_inhibit(&mut self) -> (r: Result<(), HostError>)
        ensures
            final(self).poll_budget == old(self).poll_budget,
            waited_idle(
                old(self).mmio.trace(),
                final(self).mmio.trace(),
                old(self).poll_budget,
                r,
            ),
    {
        let ghost t0 = self.mmio.trace();
        let budget: u32 = self.poll_budget;
        let ghost mut vals: Seq<u32> = Seq::empty();
        assert(t0 =~= t0 + mmio::reads(reg::PRESENT_STATE as int, vals));
        let mut n: u32 = 0;
        while n < budget
            invariant
                n <= budget,
                budget == old(self).poll_budget,
                self.poll_budget == budget,
                vals.len() == n,
                t0 == old(self).mmio.trace(),
                self.mmio.trace() == t0 + mmio::reads(reg::PRESENT_STATE as int, vals),
                forall|i: int|
                    0 <= i < n ==> (#[trigger] vals[i]) & state::CMD_INHIBIT != 0,
            decreases budget - n,
        {
            let v: u32 = self.mmio.read32(reg::PRESENT_STATE);
            proof {
                mmio::lemma_reads_push(reg::PRESENT_STATE as int, vals, v);
                vals = vals.push(v);
                assert(self.mmio.trace() =~= t0 + mmio::reads(reg::PRESENT_STATE as int, vals));
            }
            if v & state::CMD_INHIBIT == 0 {
                assert(polled_idle(t0, self.mmio.trace(), budget, Ok(()), vals));
                return Ok(());
            }
            n = n + 1;
        }
        assert(polled_idle(t0, self.mmio.trace(), budget, Err(HostError::Timeout), vals));
        Err(HostError::Timeout)
    }

    /// Waits for an interrupt flag and acknowledges it.
    fn wait_int(&mut self, flag: u32) -> (r: Result<(), HostError>)
        ensures
            final(self).poll_budget == old(self).poll_budget,
            waited_int(
                old(self).mmio.trace(),
                final(self).mmio.trace(),
                flag,
                old(self).poll_budget,
                r,
            ),
    {
        let ghost t0 = self.mmio.trace();
        let budget: u32 = self.poll_budget;
        let ghost mut vals: Seq<u32> = Seq::empty();
        assert(t0 =~= t0 + mmio::reads(reg::INT_STATUS as int, vals));
        let mut n: u32 = 0;
        while n < budget
            invariant
                n <= budget,
                budget == old(self).poll_budget,
                self.poll_budget == budget,
                vals.len() == n,
                t0 == old(self).mmio.trace(),
                self.mmio.trace() == t0 + mmio::reads(reg::INT_STATUS as int, vals),
                forall|i: int| 0 <= i < n ==> quiet(#[trigger] vals[i], flag),
            decreases budget - n,
        {
            let s: u32 = self.mmio.read32(reg::INT_STATUS);
            proof {
                mmio::lemma_reads_push(reg::INT_STATUS as int, vals, s);
                vals = vals.push(s);
                assert(self.mmio.trace() =~= t0 + mmio::reads(reg::INT_STATUS as int, vals));
            }
            if s & flag != 0 {
                self.mmio.write32(reg::INT_STATUS, flag);
                assert(polled_int(t0, self.mmio.trace(), flag, budget, Ok(()), vals));
                return Ok(());
            }
            match classify_int_status(s) {
                Ok(()) => {},
                Err(e) => {
                    assert(polled_int(t0, self.mmio.trace(), flag, budget, Err(e), vals));
                    return Err(e);
                },
            }
            n = n + 1;
        }
        assert(polled_int(t0, self.mmio.trace(), flag, budget, Err(HostError::Timeout), vals));
        Err(HostError::Timeout)
    }

    /// Issues a command on a free command line.
    fn issue_idle(&mut self, c: SdCommand, data_present: bool) -> (r: Result<
        HostResponse,
        HostError,
    >)
        ensures
            final(self).poll_budget == old(self).poll_budget,
            issued_idle(
                old(self).mmio.trace(),
                final(self).mmio.trace(),
                c,
                data_present,
                old(self).poll_budget,
                r,
            ),
    {
        let ghost t0 = self.mmio.trace();
        let budget: u32 = self.poll_budget;
        self.mmio.write32(reg::ARGUMENT, c.arg);
        let encoded: u16 = cmd_reg::encode(c.cmd, c.rsp, data_present);
        self.mmio.write16(reg::COMMAND, encoded);
        let ghost w = mmio::value_of(self.mmio.trace().drop_last().last());
        let ghost t1 = self.mmio.trace();
        assert(t1 == commanded(t0.push(Access::Write(reg::ARGUMENT as int, c.arg)), w, encoded));
        let ghost mut vals: Seq<u32> = Seq::empty();
        assert(t1 =~= t1 + mmio::reads(reg::INT_STATUS as int, vals));
        let mut n: u32 = 0;
        while n < budget
            invariant
                n <= budget,
                budget == old(self).poll_budget,
                self.poll_budget == budget,
                vals.len() == n,
                t0 == old(self).mmio.trace(),
                encoded == cmd_reg::encoded(c.cmd, c.rsp, data_present),
                t1 == commanded(
                    t0.push(Access::Write(reg::ARGUMENT as int, c.arg)),
                    w,
                    encoded,
                ),
                self.mmio.trace() == t1 + mmio::reads(reg::INT_STATUS as int, vals),
                forall|i: int|
                    0 <= i < n ==> (#[trigger] vals[i]) & int_status::CMD_ENDED == 0,
            decreases budget - n,
        {
            let s: u32 = self.mmio.read32(reg::INT_STATUS);
            proof {
                mmio::lemma_reads_push(reg::INT_STATUS as int, vals, s);
                vals = vals.push(s);
                assert(self.mmio.trace() =~= t1 + mmio::reads(reg::INT_STATUS as int, vals));
            }
            if s & int_status::CMD_ENDED != 0 {
                match classify_int_status(s) {
                    Ok(()) => {},
                    Err(e) => {
                        assert(issued_with(
                            t0,
                            self.mmio.trace(),
                            c,
                            data_present,
                            budget,
                            Err(e),
                            w,
                            vals,
                        ));
                        return Err(e);
                    },
                }
                self.mmio.write32(reg::INT_STATUS, int_status::CMD_COMPLETE);
                let r0: u32 = self.mmio.read32(reg::RESPONSE0);
                let r1: u32 = self.mmio.read32(reg::RESPONSE1);
                let r2: u32 = self.mmio.read32(reg::RESPONSE2);
                let r3: u32 = self.mmio.read32(reg::RESPONSE3);
                let resp: HostResponse = HostResponse { r: [r0, r1, r2, r3] };
                assert(issued_with(
                    t0,
                    self.mmio.trace(),
                    c,
                    data_present,
                    budget,
                    Ok(resp),
                    w,
                    vals,
                ));
                return Ok(resp);
            }
            n = n + 1;
        }
        assert(issued_with(
            t0,
            self.mmio.trace(),
            c,
            data_present,
            budget,
            Err(HostError::Timeout),
            w,
            vals,
        ));
        Err(HostError::Timeout)
    }

    /// Issues a command: waits for the command line, writes argument and command,
    /// and polls for the end of the command.
    pub fn issue_command(&mut self, c: SdCommand, data_present: bool) -> (r: Result<
        HostResponse,
        HostError,
    >)
        ensures
            final(self).poll_budget == old(self).poll_budget,
            issued(
                old(self).mmio.trace(),
                final(self).mmio.trace(),
                c,
                data_present,
                old(self).poll_budget,
                r,
            ),
    {
        match self.wait_cmd_inhibit() {
            Ok(()) => self.issue_idle(c, data_present),
            Err(e) => Err(e),
        }
    }

    /// Sets a transfer of one block up.
    fn stage(&mut self, lba: u32, mode: u16, command: u16)
        ensures
            final(self).poll_budget == old(self).poll_budget,
            exists|w: Seq<u32>|
                final(self).mmio.trace() == #[trigger] staged(
                    old(self).mmio.trace(),
                    w,
                    lba,
                    mode,
                    command,
                ),
    {
        let ghost t0 = self.mmio.trace();
        self.mmio.write16(reg::BLOCK_SIZE, 512);
        let ghost w0 = mmio::value_of(self.mmio.trace().drop_last().last());
        self.mmio.write16(reg::BLOCK_COUNT, 1);
        let ghost w1 = mmio::value_of(self.mmio.trace().drop_last().last());
        self.mmio.write32(reg::ARGUMENT, lba);
        self.mmio.write16(reg::TRANSFER_MODE, mode);
        let ghost w2 = mmio::value_of(self.mmio.trace().drop_last().last());
        self.mmio.write16(reg::COMMAND, command);
        let ghost w3 = mmio::value_of(self.mmio.trace().drop_last().last());
        let ghost w = seq![w0, w1, w2, w3];
        assert(self.mmio.trace() == staged(t0, w, lba, mode, command));
    }

    /// The end of a transfer.
    fn finish(&mut self, status: u32) -> (r: Result<u32, HostError>)
        ensures
            final(self).poll_budget == old(self).poll_budget,
            finished(
                old(self).mmio.trace(),
                final(self).mmio.trace(),
                old(self).poll_budget,
                status,
                r,
            ),
    {
        match self.wait_int(int_status::TRANSFER_COMPLETE) {
            Ok(()) => Ok(status),
            Err(e) => Err(e),
        }
    }

    /// The data phase of a read.
    fn read_words(&mut self, status: u32, buf: &mut [u8]) -> (r: Result<u32, HostError>)
        requires
            old(buf)@.len() == BLOCK_SIZE,
        ensures
            final(self).poll_budget == old(self).poll_budget,
            final(buf)@.len() == BLOCK_SIZE,
            read_data(
                old(self).mmio.trace(),
                final(self).mmio.trace(),
                old(self).poll_budget,
                status,
                r,
                old(buf)@,
                final(buf)@,
            ),
    {
        match self.wait_int(int_status::BUF_READ_READY) {
            Ok(()) => {},
            Err(e) => {
                return Err(e);
            },
        }
        let ghost t0 = self.mmio.trace();
        let ghost mut words: Seq<u32> = Seq::empty();
        assert(t0 =~= t0 + mmio::reads(reg::BUFFER_DATA_PORT as int, words));
        let mut i: usize = 0;
        while i < BLOCK_SIZE / 4
            invariant
                i <= 128,
                self.poll_budget == old(self).poll_budget,
                buf@.len() == 512,
                words.len() == i,
                self.mmio.trace() == t0 + mmio::reads(reg::BUFFER_DATA_PORT as int, words),
                forall|j: int|
                    0 <= j < i ==> #[trigger] crate::bytes::le32_at(buf@, 4 * j) == words[j],
            decreases 128 - i,
        {
            let w: u32 = self.mmio.read32(reg::BUFFER_DATA_PORT);
            let ghost before = buf@;
            let off: usize = i * 4;
            buf[off] = (w % 0x100) as u8;
            buf[off + 1] = (w / 0x100 % 0x100) as u8;
            buf[off + 2] = (w / 0x1_0000 % 0x100) as u8;
            buf[off + 3] = (w / 0x100_0000) as u8;
            proof {
                mmio::lemma_reads_push(reg::BUFFER_DATA_PORT as int, words, w);
                let old_words = words;
                words = words.push(w);
                assert(self.mmio.trace() =~= t0 + mmio::reads(
                    reg::BUFFER_DATA_PORT as int,
                    words,
                ));
                assert forall|j: int| 0 <= j < i + 1 implies #[trigger] crate::bytes::le32_at(
                    buf@,
                    4 * j,
                ) == words[j] by {
                    if j < i {
                        assert(crate::bytes::le32_at(before, 4 * j) == old_words[j]);
                    }
                }
            }
            i = i + 1;
        }
        assert(byte_words(buf@) =~= words);
        self.finish(status)
    }

    /// The data phase of a write.
    fn write_words(&mut self, status: u32, buf: &[u8]) -> (r: Result<u32, HostError>)
        requires
            buf@.len() == BLOCK_SIZE,
        ensures
            final(self).poll_budget == old(self).poll_budget,
            write_data(
                old(self).mmio.trace(),
                final(self).mmio.trace(),
                old(self).poll_budget,
                status,
                r,
                buf@,
            ),
    {
        match self.wait_int(int_status::BUF_WRITE_READY) {
            Ok(()) => {},
            Err(e) => {
                return Err(e);
            },
        }
        let ghost t0 = self.mmio.trace();
        let ghost port = reg::BUFFER_DATA_PORT as int;
        assert(t0 =~= t0 + writes(port, byte_words(buf@).take(0)));
        let mut i: usize = 0;
        while i < BLOCK_SIZE / 4
            invariant
                i <= 128,
                self.poll_budget == old(self).poll_budget,
                buf@.len() == 512,
                port == reg::BUFFER_DATA_PORT as int,
                self.mmio.trace() == t0 + writes(port, byte_words(buf@).take(i as int)),
            decreases 128 - i,
        {
            let w: u32 = crate::bytes::le32(buf, i * 4);
            self.mmio.write32(reg::BUFFER_DATA_PORT, w);
            assert(writes(port, byte_words(buf@).take(i + 1)) =~= writes(
                port,
                byte_words(buf@).take(i as int),
            ).push(Access::Write(port, w)));
            assert(self.mmio.trace() =~= t0 + writes(port, byte_words(buf@).take(i + 1)));
            i = i + 1;
        }
        assert(byte_words(buf@).take(128) =~= byte_words(buf@));
        self.finish(status)
    }

    /// What follows the command of a read.
    fn read_rest(&mut self, buf: &mut [u8]) -> (r: Result<u32, HostError>)
        requires
            old(buf)@.len() == BLOCK_SIZE,
        ensures
            final(self).poll_budget == old(self).poll_budget,
            final(buf)@.len() == BLOCK_SIZE,
            read_commanded(
                old(self).mmio.trace(),
                final(self).mmio.trace(),
                old(self).poll_budget,
                r,
                old(buf)@,
                final(buf)@,
            ),
    {
        match self.wait_int(int_status::CMD_COMPLETE) {
            Ok(()) => {
                let status: u32 = self.mmio.read32(reg::RESPONSE0);
                self.read_words(status, buf)
            },
            Err(e) => Err(e),
        }
    }

    /// What follows the command of a write.
    fn write_rest(&mut self, buf: &[u8]) -> (r: Result<u32, HostError>)
        requires
            buf@.len() == BLOCK_SIZE,
        ensures
            final(self).poll_budget == old(self).poll_budget,
            write_commanded(
                old(self).mmio.trace(),
                final(self).mmio.trace(),
                old(self).poll_budget,
                r,
                buf@,
            ),
    {
        match self.wait_int(int_status::CMD_COMPLETE) {
            Ok(()) => {
                let status: u32 = self.mmio.read32(reg::RESPONSE0);
                self.write_words(status, buf)
            },
            Err(e) => Err(e),
        }
    }

    /// Reads block `lba` into `buf`, word by word through the data port.
    pub fn read_block(&mut self, lba: u32, buf: &mut [u8]) -> (r: Result<u32, HostError>)
        requires
            old(buf)@.len() == BLOCK_SIZE,
        ensures
            final(self).poll_budget == old(self).poll_budget,
            final(buf)@.len() == BLOCK_SIZE,
            block_read(
                old(self).mmio.trace(),
                final(self).mmio.trace(),
                lba,
                old(self).poll_budget,
                r,
                old(buf)@,
                final(buf)@,
            ),
    {
        let idle: Result<(), HostError> = self.wait_cmd_inhibit();
        match idle {
            Ok(()) => {
                let command: u16 = cmd_reg::encode(cmd::READ_SINGLE_BLOCK, ResponseType::R1, true);
                assert(command == cmd_reg::encoded(
                    cmd::READ_SINGLE_BLOCK,
                    ResponseType::R1,
                    true,
                ) as u16);
                let ghost ta = self.mmio.trace();
                self.stage(lba, READ_MODE, command);
                let r: Result<u32, HostError> = self.read_rest(buf);
                assert(waited_idle(old(self).mmio.trace(), ta, old(self).poll_budget, idle));
                r
            },
            Err(e) => Err(e),
        }
    }

    /// Writes `buf` to block `lba`, word by word through the data port.
    pub fn write_block(&mut self, lba: u32, buf: &[u8]) -> (r: Result<u32, HostError>)
        requires
            buf@.len() == BLOCK_SIZE,
        ensures
            final(self).poll_budget == old(self).poll_budget,
            block_written(
                old(self).mmio.trace(),
                final(self).mmio.trace(),
                lba,
                old(self).poll_budget,
                r,
                buf@,
            ),
    {
        let idle: Result<(), HostError> = self.wait_cmd_inhibit();
        match idle {
            Ok(()) => {
                let command: u16 = cmd_reg::encode(cmd::WRITE_BLOCK, ResponseType::R1, true);
                assert(command == cmd_reg::encoded(
                    cmd::WRITE_BLOCK,
                    ResponseType::R1,
                    true,
                ) as u16);
                let ghost ta = self.mmio.trace();
                self.stage(lba, xfer_mode::BLOCK_COUNT_ENABLE, command);
                let r: Result<u32, HostError> = self.write_rest(buf);
                assert(waited_idle(old(self).mmio.trace(), ta, old(self).poll_budget, idle));
                r
            },
            Err(e) => Err(e),
        }
    }
}

} // verus!
