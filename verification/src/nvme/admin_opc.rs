//! Opcodes of the admin queue.
use vstd::prelude::*;

verus! {

pub const DELETE_IO_SQ: u8 = 0x00;

pub const CREATE_IO_SQ: u8 = 0x01;

pub const GET_LOG_PAGE: u8 = 0x02;

pub const DELETE_IO_CQ: u8 = 0x04;

pub const CREATE_IO_CQ: u8 = 0x05;

pub const IDENTIFY: u8 = 0x06;

pub const ABORT: u8 = 0x08;

pub const SET_FEATURES: u8 = 0x09;

pub const GET_FEATURES: u8 = 0x0A;

pub const ASYNC_EVENT_REQ: u8 = 0x0C;

pub const NAMESPACE_MGMT: u8 = 0x0D;

pub const FIRMWARE_COMMIT: u8 = 0x10;

pub const FIRMWARE_DOWNLOAD: u8 = 0x11;

} // verus!
