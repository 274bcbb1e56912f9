//! The state shared by every hasher and the record a probe fills in.
use vstd::prelude::*;

use crate::params::BrotliHasherParams;

verus! {

/// Best match found by a probe so far.
#[derive(Clone, Copy, Debug, PartialEq, Eq, Structural)]
pub struct HasherSearchResult {
    /// Number of bytes copied.
    pub len: usize,
    /// For a dictionary match, the word length XOR `len`; 0 otherwise.
    pub len_x_code: usize,
    /// Backward distance; beyond the window it names a dictionary word.
    pub distance: usize,
    pub score: usize,
}

/// Parameters and dictionary-probe statistics common to all hashers.
#[derive(Clone, Copy, Debug, PartialEq, Eq, Structural)]
pub struct Struct1 {
    pub params: BrotliHasherParams,
    pub is_prepared_: i32,
    /// Dictionary entries inspected so far.
    pub dict_num_lookups: usize,
    /// Dictionary entries accepted so far.
    pub dict_num_matches: usize,
}

/// The dictionary is probed only while at least one inspected entry in 128
/// has matched.
pub open spec fn dict_probe_allowed(common: Struct1) -> bool {
    common.dict_num_matches >= common.dict_num_lookups >> 7
}

} // verus!
