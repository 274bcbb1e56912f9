//! Encoder and hasher parameters read by the match finder and the driver.
use vstd::prelude::*;

verus! {

/// Kind of data the encoder is tuned for.
#[derive(Clone, Copy, Debug, PartialEq, Eq, Structural)]
pub enum BrotliEncoderMode {
    BROTLI_MODE_GENERIC,
    BROTLI_MODE_TEXT,
    BROTLI_MODE_FONT,
}

/// Choice and shape of the hash-table index.
#[derive(Clone, Copy, Debug, PartialEq, Eq, Structural)]
pub struct BrotliHasherParams {
    /// Hasher tag: 2, 3, 4, 5, 6, 40, 41, 42 or 54.
    pub type_: i32,
    pub bucket_bits: i32,
    pub block_bits: i32,
    pub hash_len: i32,
    /// Number of distance-cache slots probed: 0, 4, 10 or 16.
    pub num_last_distances_to_check: i32,
}

/// Parameters of one encoder instance.
#[derive(Clone, Copy, Debug, PartialEq, Eq, Structural)]
pub struct BrotliEncoderParams {
    pub mode: BrotliEncoderMode,
    pub quality: i32,
    pub lgwin: i32,
    pub lgblock: i32,
    pub size_hint: usize,
    pub disable_literal_context_modeling: i32,
    pub hasher: BrotliHasherParams,
}

/// Length of the literal run after which the driver starts skipping
/// positions in a poorly matching region.
pub open spec fn literal_spree_length(quality: i32) -> usize {
    if quality < 9 {
        64
    } else {
        512
    }
}

/// Length of the literal run after which the driver starts skipping
/// positions: 64 below quality 9, 512 from there on.
pub fn LiteralSpreeLengthForSparseSearch(params: &BrotliEncoderParams) -> (r: usize)
    ensures
        r == literal_spree_length(params.quality),
{
    if params.quality < 9 {
        64
    } else {
        512
    }
}

} // verus!
