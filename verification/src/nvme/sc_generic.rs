//! Generic status codes.
use vstd::prelude::*;

verus! {

pub const SUCCESS: u8 = 0x00;

pub const INVALID_COMMAND_OPCODE: u8 = 0x01;

pub const INVALID_FIELD: u8 = 0x02;

pub const CID_CONFLICT: u8 = 0x03;

pub const DATA_TRANSFER_ERROR: u8 = 0x04;

pub const ABORTED_POWER_LOSS: u8 = 0x05;

pub const INTERNAL_ERROR: u8 = 0x06;

pub const ABORTED_BY_REQUEST: u8 = 0x07;

pub const ABORTED_SQ_DELETION: u8 = 0x08;

pub const NS_NOT_READY: u8 = 0x82;

pub const NS_NOT_ATTACHED: u8 = 0x0B;

pub const LBA_OUT_OF_RANGE: u8 = 0x80;

pub const CAPACITY_EXCEEDED: u8 = 0x81;

} // verus!
