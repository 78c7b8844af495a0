//! Opcodes of the I/O queues.
use vstd::prelude::*;

verus! {

pub const FLUSH: u8 = 0x00;

pub const WRITE: u8 = 0x01;

pub const READ: u8 = 0x02;

pub const WRITE_UNCOR: u8 = 0x04;

pub const COMPARE: u8 = 0x05;

pub const WRITE_ZEROES: u8 = 0x08;

pub const DSM: u8 = 0x09;

} // verus!
