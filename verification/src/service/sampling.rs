//! Monetary-unit sampling (MUS): the kinds of pick and the deterministic
//! seed mixing that makes a sample reproducible. The same population,
//! materiality and seed always give the same sample, so an audit working
//! paper can be re-performed.

use vstd::prelude::*;

verus! {

/// Kind of pick: a key item (at or above the sampling interval, always
/// taken) or a systematic PPS sample.
#[derive(Debug, Clone, Copy, PartialEq, Eq, Structural)]
pub enum MusType {
    KeyItem,
    PpsSample,
}

/// One selection: the index in the caller's amounts and its kind.
#[derive(Debug, Clone, Copy, PartialEq, Eq, Structural)]
pub struct MusPick {
    pub index: usize,
    pub kind: MusType,
}

/// One splitmix64 step from state `seed`.
pub open spec fn splitmix_spec(seed: u64) -> u64 {
    let z0 = seed.wrapping_add(0x9E37_79B9_7F4A_7C15u64);
    let z1 = (z0 ^ (z0 >> 30u64)).wrapping_mul(0xBF58_476D_1CE4_E5B9u64);
    let z2 = (z1 ^ (z1 >> 27u64)).wrapping_mul(0x94D0_49BB_1331_11EBu64);
    z2 ^ (z2 >> 31u64)
}

/// The splitmix64 output for `seed`; the random start of the systematic
/// selection is drawn from its top 53 bits.
pub fn mix_seed(seed: u64) -> (r: u64)
    ensures
        r == splitmix_spec(seed),
{
    let mut z = seed.wrapping_add(0x9E37_79B9_7F4A_7C15u64);
    z = (z ^ (z >> 30u64)).wrapping_mul(0xBF58_476D_1CE4_E5B9u64);
    z = (z ^ (z >> 27u64)).wrapping_mul(0x94D0_49BB_1331_11EBu64);
    z ^ (z >> 31u64)
}

} // verus!
