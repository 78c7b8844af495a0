//! Powers of two.
use vstd::arithmetic::power2::pow2;
use vstd::prelude::*;

verus! {

/// A power of two, for an exponent of five bits.
pub fn power(exp: u32) -> (r: u32)
    requires
        exp < 32,
    ensures
        r == pow2(exp as nat),
        1 <= pow2(exp as nat) <= u32::MAX,
{
    proof {
        vstd::arithmetic::power2::lemma2_to64();
        vstd::arithmetic::power2::lemma2_to64_rest();
        vstd::arithmetic::power2::lemma_pow2_pos(exp as nat);
        if exp < 31 {
            vstd::arithmetic::power2::lemma_pow2_strictly_increases(exp as nat, 31);
        }
        vstd::bits::lemma_u32_shl_is_mul(1, exp);
    }
    1u32 << exp
}

} // verus!
