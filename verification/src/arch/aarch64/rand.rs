//! Random numbers: those of the processor, or of a generator that mixes the
//! counter in at each draw.
use vstd::prelude::*;

verus! {

/// The state of a generator that was not seeded.
pub const DEFAULT_STATE: u64 = 0xDEAD_BEEF_CAFE_BABE;

/// Spreads a reading of the counter when seeding.
pub const SEED_FACTOR: u64 = 0x9E37_79B9_7F4A_7C15;

/// Spreads a reading of the counter at a draw.
pub const DRAW_FACTOR: u64 = 0x2545_F491_4F6C_DD1D;

/// Readings of the counter that make a seed.
pub const SEED_READS: usize = 8;

/// A word turned left by seven bits.
pub open spec fn turned(x: u64) -> u64 {
    (x << 7) | (x >> 57)
}

/// A seed with another reading of the counter.
pub open spec fn mixed(seed: u64, cnt: u64) -> u64 {
    turned(seed) ^ cnt.wrapping_mul(SEED_FACTOR)
}

/// A seed with readings of the counter.
pub open spec fn mixed_all(seed: u64, counts: Seq<u64>) -> u64
    decreases counts.len(),
{
    if counts.len() == 0 {
        seed
    } else {
        mixed(mixed_all(seed, counts.drop_last()), counts.last())
    }
}

/// A state that is not zero.
pub open spec fn nonzero(x: u64) -> u64 {
    if x == 0 {
        DEFAULT_STATE
    } else {
        x
    }
}

/// The state after a step.
pub open spec fn stepped(x: u64) -> u64 {
    let a = x ^ (x << 13);
    let b = a ^ (a >> 7);
    b ^ (b << 17)
}

/// The state after a draw at a reading of the counter.
pub open spec fn drawn(state: u64, cnt: u64) -> u64 {
    stepped(nonzero(state ^ cnt.wrapping_mul(DRAW_FACTOR)))
}

/// The generator.
pub struct Rng {
    pub state: u64,
    /// The processor has random numbers of its own.
    pub has_rndr: bool,
}

/// Zero is the only state that steps to zero.
proof fn lemma_step(x: u64)
    requires
        x != 0,
    ensures
        stepped(x) != 0,
{
    let a = x ^ (x << 13);
    let b = a ^ (a >> 7);
    assert(a != 0) by (bit_vector)
        requires
            x != 0,
            a == x ^ (x << 13),
    ;
    assert(b != 0) by (bit_vector)
        requires
            a != 0,
            b == a ^ (a >> 7),
    ;
    assert(b ^ (b << 17) != 0) by (bit_vector)
        requires
            b != 0,
    ;
}

/// The state never becomes zero, from which the generator would not get away.
pub proof fn law_state_is_never_zero(seed: u64, counts: Seq<u64>, state: u64, cnt: u64)
    ensures
        nonzero(mixed_all(seed, counts)) != 0,
        drawn(state, cnt) != 0,
{
    lemma_step(nonzero(state ^ cnt.wrapping_mul(DRAW_FACTOR)));
}

/// A generator that was not seeded.
pub fn unseeded() -> (r: Rng)
    ensures
        r.state == DEFAULT_STATE,
        !r.has_rndr,
{
    Rng { state: DEFAULT_STATE, has_rndr: false }
}

/// Seeds the generator from readings of the counter, and finds out whether the
/// processor has random numbers of its own.
pub fn init(rng: &mut Rng, counts: [u64; 8], isar0: u64)
    ensures
        final(rng).state == nonzero(mixed_all(old(rng).state, counts@)),
        final(rng).has_rndr == (isar0 / 0x1000_0000_0000_0000 >= 1),
{
    let mut seed: u64 = rng.state;
    let mut i: usize = 0;
    assert(counts@.take(0) =~= Seq::<u64>::empty());
    while i < SEED_READS
        invariant
            i <= SEED_READS,
            counts@.len() == SEED_READS,
            seed == mixed_all(old(rng).state, counts@.take(i as int)),
        decreases SEED_READS - i,
    {
        let ghost next = counts@.take(i + 1);
        assert(next.drop_last() =~= counts@.take(i as int));
        assert(next.last() == counts@[i as int]);
        seed = ((seed << 7) | (seed >> 57)) ^ counts[i].wrapping_mul(SEED_FACTOR);
        i = i + 1;
    }
    assert(counts@.take(8) =~= counts@);
    if seed == 0 {
        seed = DEFAULT_STATE;
    }
    rng.state = seed;
    rng.has_rndr = isar0 / 0x1000_0000_0000_0000 >= 1;
}

/// A number. `rndr` is what the processor gave, where it gave one; `cnt` is a
/// reading of the counter.
pub fn get_u32(rng: &mut Rng, rndr: Option<u64>, cnt: u64) -> (r: u32)
    ensures
        final(rng).has_rndr == old(rng).has_rndr,
        if old(rng).has_rndr && rndr is Some {
            r == rndr->0 % 0x1_0000_0000 && final(rng).state == old(rng).state
        } else {
            &&& final(rng).state == drawn(old(rng).state, cnt)
            &&& r == final(rng).state % 0x1_0000_0000
        },
{
    if rng.has_rndr {
        if let Some(v) = rndr {
            return (v % 0x1_0000_0000) as u32;
        }
    }
    let mut state: u64 = rng.state ^ cnt.wrapping_mul(DRAW_FACTOR);
    if state == 0 {
        state = DEFAULT_STATE;
    }
    let a: u64 = state ^ (state << 13);
    let b: u64 = a ^ (a >> 7);
    state = b ^ (b << 17);
    rng.state = state;
    (state % 0x1_0000_0000) as u32
}

} // verus!
