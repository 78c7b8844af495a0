//! Command numbers (SD physical layer, section 4.7.4).
use vstd::prelude::*;

verus! {

pub const GO_IDLE_STATE: u8 = 0;

pub const ALL_SEND_CID: u8 = 2;

pub const SEND_RELATIVE_ADDR: u8 = 3;

pub const SELECT_CARD: u8 = 7;

pub const SEND_IF_COND: u8 = 8;

pub const SEND_CSD: u8 = 9;

pub const STOP_TRANSMISSION: u8 = 12;

pub const SEND_STATUS: u8 = 13;

pub const SET_BLOCKLEN: u8 = 16;

pub const READ_SINGLE_BLOCK: u8 = 17;

pub const READ_MULTIPLE_BLOCK: u8 = 18;

pub const WRITE_BLOCK: u8 = 24;

pub const WRITE_MULTIPLE_BLOCK: u8 = 25;

pub const APP_CMD: u8 = 55;

/// Application command: sent right after [`APP_CMD`].
pub const SD_SEND_OP_COND: u8 = 41;

} // verus!
