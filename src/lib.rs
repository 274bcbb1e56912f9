//! Backward-reference discovery for a Brotli-style compressor: hash-table
//! indexes over a ring-buffered history, a scored match finder with a
//! distance cache and a static-dictionary probe, and the greedy/lazy driver
//! that turns input bytes into literal runs and copies.
#![allow(non_snake_case)]
#![allow(non_camel_case_types)]
#![allow(non_upper_case_globals)]

use vstd::prelude::*;

pub mod util;
pub mod score;
pub mod params;
pub mod search;
pub mod dictionary;
pub mod distance_cache;
pub mod hasher;
pub mod basic_hasher;
pub mod adv_hasher;
pub mod banked;
pub mod union_hasher;
pub mod backward_references;
pub mod laws;
