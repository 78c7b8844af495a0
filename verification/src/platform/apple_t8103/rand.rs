//! Random numbers of a generator that starts from a fixed seed.
use vstd::prelude::*;

verus! {

/// The seed.
pub const SEED: u32 = 0xDEAD_BEEF;

/// The state after a step.
pub open spec fn stepped(x: u32) -> u32 {
    let a = x ^ (x << 13);
    let b = a ^ (a >> 17);
    b ^ (b << 5)
}

/// The next number.
pub fn get_u32(seed: &mut u32) -> (r: u32)
    ensures
        r == stepped(*old(seed)),
        *final(seed) == r,
{
    let x: u32 = *seed;
    let a: u32 = x ^ (x << 13);
    let b: u32 = a ^ (a >> 17);
    *seed = b ^ (b << 5);
    *seed
}

/// No number is zero, and no two states lead to the same: the numbers do not get
/// stuck.
pub proof fn law_numbers_are_not_zero(x: u32, y: u32)
    ensures
        x != 0 ==> stepped(x) != 0,
        x != y ==> stepped(x) != stepped(y),
{
    lemma_injective(x, y);
    lemma_injective(x, 0);
    assert(stepped(0) == 0) by (bit_vector);
}

/// No two states lead to the same.
proof fn lemma_injective(x: u32, y: u32)
    ensures
        x != y ==> stepped(x) != stepped(y),
{
    let (a, c) = (x ^ (x << 13), y ^ (y << 13));
    let (b, d) = (a ^ (a >> 17), c ^ (c >> 17));
    assert(x != y ==> x ^ (x << 13) != y ^ (y << 13)) by (bit_vector);
    assert(a != c ==> a ^ (a >> 17) != c ^ (c >> 17)) by (bit_vector);
    assert(b != d ==> b ^ (b << 5) != d ^ (d << 5)) by (bit_vector);
}

} // verus!
