//! Random numbers of the best source that there is.
use crate::arch::aarch64::rand;
use crate::bytes;
use crate::platform::qemu_virt::rng::{Rng, POOL_SIZE};
use vstd::prelude::*;

verus! {

/// A number of the entropy device, where it has four bytes, which are wiped; else of
/// the processor or the generator.
pub fn get_u32(device: &mut Rng, fallback: &mut rand::Rng, rndr: Option<u64>, cnt: u64) -> (r: u32)
    requires
        old(device).wf(),
    ensures
        final(device).wf(),
        final(device).dev == old(device).dev,
        final(fallback).has_rndr == old(fallback).has_rndr,
        if old(device)@.len() >= 4 {
            let start = old(device)@.len() - 4;
            &&& r == bytes::le32_at(old(device)@, start)
            &&& final(device)@ == old(device)@.take(start)
            &&& forall|i: int| start <= i < start + 4 ==> #[trigger] final(device).pool@[i] == 0
            &&& forall|i: int|
                0 <= i < POOL_SIZE && !(start <= i < start + 4)
                    ==> #[trigger] final(device).pool@[i] == old(device).pool@[i]
            &&& *final(fallback) == *old(fallback)
        } else if old(fallback).has_rndr && rndr is Some {
            &&& r == rndr->0 % 0x1_0000_0000
            &&& *final(device) == *old(device)
            &&& final(fallback).state == old(fallback).state
        } else {
            &&& final(fallback).state == rand::drawn(old(fallback).state, cnt)
            &&& r == final(fallback).state % 0x1_0000_0000
            &&& *final(device) == *old(device)
        },
{
    match device.get_u32() {
        Some(v) => v,
        None => rand::get_u32(fallback, rndr, cnt),
    }
}

} // verus!
