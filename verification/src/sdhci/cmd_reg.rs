//! Fields of the command register.
use crate::sdhci::ResponseType;
use vstd::prelude::*;

verus! {

pub const RESP_NONE: u16 = 0;

pub const RESP_LEN_136: u16 = 1;

pub const RESP_LEN_48: u16 = 2;

pub const RESP_LEN_48B: u16 = 3;

pub const CRC_CHECK_EN: u16 = 0x8;

pub const INDEX_CHECK_EN: u16 = 0x10;

pub const DATA_PRESENT: u16 = 0x20;

pub const TYPE_NORMAL: u16 = 0;

pub const TYPE_SUSPEND: u16 = 0x40;

pub const TYPE_RESUME: u16 = 0x80;

pub const TYPE_ABORT: u16 = 0xC0;

pub const INDEX_SHIFT: u16 = 8;

pub const INDEX_MASK: u16 = 0x3F00;

/// Response length and checks for a response type: the operating-conditions
/// response has no checksum, and only the short ones echo the index.
pub open spec fn response_bits(rsp: ResponseType) -> int {
    match rsp {
        ResponseType::NoResponse => RESP_NONE as int,
        ResponseType::R2 => RESP_LEN_136 + CRC_CHECK_EN,
        ResponseType::R3 => RESP_LEN_48 as int,
        ResponseType::R1b => RESP_LEN_48B + CRC_CHECK_EN + INDEX_CHECK_EN,
        ResponseType::R1 | ResponseType::R6 | ResponseType::R7 => RESP_LEN_48 + CRC_CHECK_EN
            + INDEX_CHECK_EN,
    }
}

/// The command register's value.
pub open spec fn encoded(cmd: u8, rsp: ResponseType, data_present: bool) -> int {
    response_bits(rsp) + (if data_present {
        DATA_PRESENT as int
    } else {
        0
    }) + cmd as int % 64 * 256
}

/// Encodes a command for the command register.
pub fn encode(cmd: u8, rsp: ResponseType, data_present: bool) -> (r: u16)
    ensures
        r == encoded(cmd, rsp, data_present),
{
    let resp: u16 = match rsp {
        ResponseType::NoResponse => RESP_NONE,
        ResponseType::R2 => RESP_LEN_136 + CRC_CHECK_EN,
        ResponseType::R3 => RESP_LEN_48,
        ResponseType::R1b => RESP_LEN_48B + CRC_CHECK_EN + INDEX_CHECK_EN,
        ResponseType::R1 | ResponseType::R6 | ResponseType::R7 => RESP_LEN_48 + CRC_CHECK_EN
            + INDEX_CHECK_EN,
    };
    let dp: u16 = if data_present { DATA_PRESENT } else { 0 };
    let idx: u16 = (cmd % 64) as u16 * 256;
    resp + dp + idx
}

} // verus!
