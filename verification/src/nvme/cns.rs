//! What an identify command asks for.
use vstd::prelude::*;

verus! {

pub const IDENTIFY_NAMESPACE: u8 = 0x00;

pub const IDENTIFY_CONTROLLER: u8 = 0x01;

pub const ACTIVE_NAMESPACES: u8 = 0x02;

pub const ALLOCATED_NAMESPACES: u8 = 0x10;

pub const IDENTIFY_NAMESPACE_ALLOCATED: u8 = 0x11;

} // verus!
