//! The deterministic integer stream behind the scene predictor's random projection
//! (SplitMix64): the same matrix on every start, for every embedding width.

use vstd::prelude::*;

verus! {

/// Increment of the SplitMix64 state.
pub const GOLDEN_GAMMA: u64 = 0x9E37_79B9_7F4A_7C15;

/// Seed of the projection stream; the embedding width is mixed into it.
pub const PROJECTION_SEED: u64 = 0xD1B5_4A32_D192_ED03;

/// The SplitMix64 output function.
pub open spec fn mix64(z: u64) -> u64 {
    let a = (z ^ (z >> 30u64)).wrapping_mul(0xBF58_476D_1CE4_E5B9u64);
    let b = (a ^ (a >> 27u64)).wrapping_mul(0x94D0_49BB_1331_11EBu64);
    b ^ (b >> 31u64)
}

/// The state after `k` steps from `seed`.
pub open spec fn splitmix_state(seed: u64, k: nat) -> u64
    decreases k,
{
    if k == 0 {
        seed
    } else {
        splitmix_state(seed, (k - 1) as nat).wrapping_add(GOLDEN_GAMMA)
    }
}

/// The `i`-th value of the stream seeded with `seed`.
pub open spec fn splitmix_value(seed: u64, i: nat) -> u64 {
    mix64(splitmix_state(seed, i + 1))
}

/// The first `count` values of the projection stream for embeddings of width `dim`.
pub fn projection_stream(dim: usize, count: usize) -> (v: Vec<u64>)
    ensures
        v@.len() == count,
        forall|i: int| 0 <= i < count ==> #[trigger] v@[i] == splitmix_value(PROJECTION_SEED ^ (dim as u64), i as nat),
{
    let seed: u64 = PROJECTION_SEED ^ (dim as u64);
    let mut state: u64 = seed;
    let mut v: Vec<u64> = Vec::new();
    let mut i: usize = 0;
    while i < count
        invariant
            i <= count,
            v@.len() == i,
            state == splitmix_state(seed, i as nat),
            forall|k: int| 0 <= k < i ==> #[trigger] v@[k] == splitmix_value(seed, k as nat),
        decreases count - i,
    {
        state = state.wrapping_add(GOLDEN_GAMMA);
        let a: u64 = (state ^ (state >> 30u64)).wrapping_mul(0xBF58_476D_1CE4_E5B9u64);
        let b: u64 = (a ^ (a >> 27u64)).wrapping_mul(0x94D0_49BB_1331_11EBu64);
        v.push(b ^ (b >> 31u64));
        i = i + 1;
    }
    v
}

} // verus!
