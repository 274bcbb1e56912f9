//! Scores that rank candidate matches on one scale: roughly the bits a copy
//! saves over coding its bytes as literals.
use vstd::prelude::*;

use crate::util::{log2_floor, Log2FloorNonZero};

verus! {

/// Base term of every score: 240 times the machine word size (8 bytes).
pub const kScoreBase: usize = 1920;

/// Smallest score a match must beat to be taken.
pub const kMinScore: usize = 2020;

/// Score of a copy of `len` bytes from a distance held in the cache.
pub open spec fn score_last_distance(len: int) -> int {
    135 * len + 1920 + 15
}

/// Score of a copy of `len` bytes from `backward` bytes back.
pub open spec fn score(len: int, backward: nat) -> int {
    1920 + 135 * len - 30 * log2_floor(backward)
}

/// Penalty for taking the distance of cache slot `i`.
pub open spec fn penalty(i: usize) -> usize {
    (39 + ((0x1ca10usize >> (i & 0xe)) & 0xe)) as usize
}

/// Largest copy length whose scores fit in a machine word.
pub open spec fn score_fits(len: int) -> bool {
    135 * len + 1920 + 15 <= usize::MAX
}

/// Score of a copy that reuses a distance from the cache.
pub fn BackwardReferenceScoreUsingLastDistance(copy_length: usize) -> (r: usize)
    requires
        score_fits(copy_length as int),
    ensures
        r as int == score_last_distance(copy_length as int),
{
    135 * copy_length + kScoreBase + 15
}

/// Score of a copy of `copy_length` bytes at `backward_reference_offset`
/// bytes back: longer is better, farther is worse.
pub fn BackwardReferenceScore(copy_length: usize, backward_reference_offset: usize) -> (r: usize)
    requires
        backward_reference_offset > 0,
        score_fits(copy_length as int),
    ensures
        r as int == score(copy_length as int, backward_reference_offset as nat),
{
    let lg = Log2FloorNonZero(backward_reference_offset);
    kScoreBase + 135 * copy_length - 30 * (lg as usize)
}

/// Penalty subtracted from the score of a match on cache slot
/// `distance_short_code`; between 39 and 53.
pub fn BackwardReferencePenaltyUsingLastDistance(distance_short_code: usize) -> (r: usize)
    ensures
        r == penalty(distance_short_code),
        39 <= r <= 53,
{
    let sh = distance_short_code & 0xe;
    assert(sh <= 0xe) by (bit_vector)
        requires
            sh == distance_short_code & 0xe,
    ;
    let bits = (0x1ca10usize >> sh) & 0xe;
    assert(bits <= 0xe) by (bit_vector)
        requires
            bits == (0x1ca10usize >> sh) & 0xe,
    ;
    39 + bits
}

} // verus!
