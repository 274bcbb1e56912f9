//! One hasher of any of the supported kinds, chosen by the parameters.
use vstd::prelude::*;

use crate::adv_hasher::{adv_params_ok, AdvHasher, H5Sub, H6Sub};
use crate::banked::{H40, H41, H42};
use crate::basic_hasher::{BasicHasher, H2Sub, H3Sub, H4Sub, H54Sub};
use crate::dictionary::BrotliDictionary;
use crate::hasher::AnyHasher;
use crate::params::{BrotliEncoderParams, BrotliHasherParams};
use crate::search::{HasherSearchResult, Struct1};

verus! {

/// A hasher of one of the supported kinds.
pub enum UnionHasher {
    H2(BasicHasher<H2Sub>),
    H3(BasicHasher<H3Sub>),
    H4(BasicHasher<H4Sub>),
    H54(BasicHasher<H54Sub>),
    H5(AdvHasher<H5Sub>),
    H6(AdvHasher<H6Sub>),
    H40(H40),
    H41(H41),
    H42(H42),
}

/// Hasher tags that can be built, with parameters in range.
pub open spec fn hasher_params_ok(p: BrotliHasherParams) -> bool {
    ||| p.type_ == 2 || p.type_ == 3 || p.type_ == 4 || p.type_ == 54
    ||| p.type_ == 40 || p.type_ == 41 || p.type_ == 42
    ||| (p.type_ == 5 || p.type_ == 6) && adv_params_ok(p)
}

impl UnionHasher {
    /// An empty hasher of the kind `params.hasher.type_` names, or `None`
    /// where the kind is unknown or its parameters are out of range. A
    /// banked hasher visits `(quality > 6 ? 7 : 8) << (quality - 4)` list
    /// entries per probe, quality taken within 4..=11.
    pub fn new(params: &BrotliEncoderParams) -> (r: Option<UnionHasher>)
        ensures
            r is Some <==> hasher_params_ok(params.hasher),
            r is Some ==> r->0.inv() && r->0.common().params == params.hasher
                && r->0.common().dict_num_lookups == 0 && r->0.common().dict_num_matches == 0,
    {
        let p: BrotliHasherParams = params.hasher;
        let common = Struct1 { params: p, is_prepared_: 1, dict_num_lookups: 0, dict_num_matches: 0 };
        let q: i32 = if params.quality < 4 {
            4
        } else if params.quality > 11 {
            11
        } else {
            params.quality
        };
        let base: usize = if q > 6 {
            7
        } else {
            8
        };
        let shift: usize = (q - 4) as usize;
        assert(base << shift <= 1024) by (bit_vector)
            requires
                base <= 8,
                shift <= 7,
        ;
        let max_hops: usize = base << shift;
        if p.type_ == 2 {
            Some(UnionHasher::H2(BasicHasher::new(H2Sub {}, common)))
        } else if p.type_ == 3 {
            Some(UnionHasher::H3(BasicHasher::new(H3Sub {}, common)))
        } else if p.type_ == 4 {
            Some(UnionHasher::H4(BasicHasher::new(H4Sub {}, common)))
        } else if p.type_ == 54 {
            Some(UnionHasher::H54(BasicHasher::new(H54Sub {}, common)))
        } else if p.type_ == 5 {
            match AdvHasher::new(H5Sub {}, p) {
                Some(h) => Some(UnionHasher::H5(h)),
                None => None,
            }
        } else if p.type_ == 6 {
            match AdvHasher::new(H6Sub { hash_mask: 0 }, p) {
                Some(h) => Some(UnionHasher::H6(h)),
                None => None,
            }
        } else if p.type_ == 40 {
            Some(UnionHasher::H40(H40::new(p, max_hops)))
        } else if p.type_ == 41 {
            Some(UnionHasher::H41(H41::new(p, max_hops)))
        } else if p.type_ == 42 {
            Some(UnionHasher::H42(H42::new(p, max_hops)))
        } else {
            None
        }
    }
}

impl AnyHasher for UnionHasher {
    open spec fn inv(&self) -> bool {
        match self {
            UnionHasher::H2(h) => h.inv(),
            UnionHasher::H3(h) => h.inv(),
            UnionHasher::H4(h) => h.inv(),
            UnionHasher::H54(h) => h.inv(),
            UnionHasher::H5(h) => h.inv(),
            UnionHasher::H6(h) => h.inv(),
            UnionHasher::H40(h) => h.inv(),
            UnionHasher::H41(h) => h.inv(),
            UnionHasher::H42(h) => h.inv(),
        }
    }

    open spec fn stored(&self, after: &Self, data: Seq<u8>, mask: usize, ix: usize) -> bool {
        match (self, after) {
            (UnionHasher::H2(a), UnionHasher::H2(b)) => a.stored(b, data, mask, ix),
            (UnionHasher::H3(a), UnionHasher::H3(b)) => a.stored(b, data, mask, ix),
            (UnionHasher::H4(a), UnionHasher::H4(b)) => a.stored(b, data, mask, ix),
            (UnionHasher::H54(a), UnionHasher::H54(b)) => a.stored(b, data, mask, ix),
            (UnionHasher::H5(a), UnionHasher::H5(b)) => a.stored(b, data, mask, ix),
            (UnionHasher::H6(a), UnionHasher::H6(b)) => a.stored(b, data, mask, ix),
            (UnionHasher::H40(a), UnionHasher::H40(b)) => a.stored(b, data, mask, ix),
            (UnionHasher::H41(a), UnionHasher::H41(b)) => a.stored(b, data, mask, ix),
            (UnionHasher::H42(a), UnionHasher::H42(b)) => a.stored(b, data, mask, ix),
            _ => false,
        }
    }

    open spec fn probe(
        &self,
        dict: &BrotliDictionary,
        dict_hash: Seq<u16>,
        data: Seq<u8>,
        mask: usize,
        distance_cache: Seq<i32>,
        cur_ix: usize,
        max_length: usize,
        max_backward: usize,
        out: HasherSearchResult,
    ) -> (bool, HasherSearchResult, Struct1) {
        match self {
            UnionHasher::H2(h) => h.probe(dict, dict_hash, data, mask, distance_cache, cur_ix, max_length, max_backward, out),
            UnionHasher::H3(h) => h.probe(dict, dict_hash, data, mask, distance_cache, cur_ix, max_length, max_backward, out),
            UnionHasher::H4(h) => h.probe(dict, dict_hash, data, mask, distance_cache, cur_ix, max_length, max_backward, out),
            UnionHasher::H54(h) => h.probe(dict, dict_hash, data, mask, distance_cache, cur_ix, max_length, max_backward, out),
            UnionHasher::H5(h) => h.probe(dict, dict_hash, data, mask, distance_cache, cur_ix, max_length, max_backward, out),
            UnionHasher::H6(h) => h.probe(dict, dict_hash, data, mask, distance_cache, cur_ix, max_length, max_backward, out),
            UnionHasher::H40(h) => h.probe(dict, dict_hash, data, mask, distance_cache, cur_ix, max_length, max_backward, out),
            UnionHasher::H41(h) => h.probe(dict, dict_hash, data, mask, distance_cache, cur_ix, max_length, max_backward, out),
            UnionHasher::H42(h) => h.probe(dict, dict_hash, data, mask, distance_cache, cur_ix, max_length, max_backward, out),
        }
    }

    open spec fn common(&self) -> Struct1 {
        match self {
            UnionHasher::H2(h) => h.common(),
            UnionHasher::H3(h) => h.common(),
            UnionHasher::H4(h) => h.common(),
            UnionHasher::H54(h) => h.common(),
            UnionHasher::H5(h) => h.common(),
            UnionHasher::H6(h) => h.common(),
            UnionHasher::H40(h) => h.common(),
            UnionHasher::H41(h) => h.common(),
            UnionHasher::H42(h) => h.common(),
        }
    }

    open spec fn hash_type_length(&self) -> usize {
        match self {
            UnionHasher::H2(h) => h.hash_type_length(),
            UnionHasher::H3(h) => h.hash_type_length(),
            UnionHasher::H4(h) => h.hash_type_length(),
            UnionHasher::H54(h) => h.hash_type_length(),
            UnionHasher::H5(h) => h.hash_type_length(),
            UnionHasher::H6(h) => h.hash_type_length(),
            UnionHasher::H40(h) => h.hash_type_length(),
            UnionHasher::H41(h) => h.hash_type_length(),
            UnionHasher::H42(h) => h.hash_type_length(),
        }
    }

    open spec fn store_lookahead(&self) -> usize {
        match self {
            UnionHasher::H2(h) => h.store_lookahead(),
            UnionHasher::H3(h) => h.store_lookahead(),
            UnionHasher::H4(h) => h.store_lookahead(),
            UnionHasher::H54(h) => h.store_lookahead(),
            UnionHasher::H5(h) => h.store_lookahead(),
            UnionHasher::H6(h) => h.store_lookahead(),
            UnionHasher::H40(h) => h.store_lookahead(),
            UnionHasher::H41(h) => h.store_lookahead(),
            UnionHasher::H42(h) => h.store_lookahead(),
        }
    }

    open spec fn num_distances(&self) -> i32 {
        match self {
            UnionHasher::H2(h) => h.num_distances(),
            UnionHasher::H3(h) => h.num_distances(),
            UnionHasher::H4(h) => h.num_distances(),
            UnionHasher::H54(h) => h.num_distances(),
            UnionHasher::H5(h) => h.num_distances(),
            UnionHasher::H6(h) => h.num_distances(),
            UnionHasher::H40(h) => h.num_distances(),
            UnionHasher::H41(h) => h.num_distances(),
            UnionHasher::H42(h) => h.num_distances(),
        }
    }

    fn GetHasherCommon(&self) -> (r: &Struct1) {
        match self {
            UnionHasher::H2(h) => h.GetHasherCommon(),
            UnionHasher::H3(h) => h.GetHasherCommon(),
            UnionHasher::H4(h) => h.GetHasherCommon(),
            UnionHasher::H54(h) => h.GetHasherCommon(),
            UnionHasher::H5(h) => h.GetHasherCommon(),
            UnionHasher::H6(h) => h.GetHasherCommon(),
            UnionHasher::H40(h) => h.GetHasherCommon(),
            UnionHasher::H41(h) => h.GetHasherCommon(),
            UnionHasher::H42(h) => h.GetHasherCommon(),
        }
    }

    fn HashTypeLength(&self) -> (r: usize) {
        match self {
            UnionHasher::H2(h) => h.HashTypeLength(),
            UnionHasher::H3(h) => h.HashTypeLength(),
            UnionHasher::H4(h) => h.HashTypeLength(),
            UnionHasher::H54(h) => h.HashTypeLength(),
            UnionHasher::H5(h) => h.HashTypeLength(),
            UnionHasher::H6(h) => h.HashTypeLength(),
            UnionHasher::H40(h) => h.HashTypeLength(),
            UnionHasher::H41(h) => h.HashTypeLength(),
            UnionHasher::H42(h) => h.HashTypeLength(),
        }
    }

    fn StoreLookahead(&self) -> (r: usize) {
        match self {
            UnionHasher::H2(h) => h.StoreLookahead(),
            UnionHasher::H3(h) => h.StoreLookahead(),
            UnionHasher::H4(h) => h.StoreLookahead(),
            UnionHasher::H54(h) => h.StoreLookahead(),
            UnionHasher::H5(h) => h.StoreLookahead(),
            UnionHasher::H6(h) => h.StoreLookahead(),
            UnionHasher::H40(h) => h.StoreLookahead(),
            UnionHasher::H41(h) => h.StoreLookahead(),
            UnionHasher::H42(h) => h.StoreLookahead(),
        }
    }

    fn PrepareDistanceCache(&self, distance_cache: &mut [i32]) {
        match self {
            UnionHasher::H2(h) => h.PrepareDistanceCache(distance_cache),
            UnionHasher::H3(h) => h.PrepareDistanceCache(distance_cache),
            UnionHasher::H4(h) => h.PrepareDistanceCache(distance_cache),
            UnionHasher::H54(h) => h.PrepareDistanceCache(distance_cache),
            UnionHasher::H5(h) => h.PrepareDistanceCache(distance_cache),
            UnionHasher::H6(h) => h.PrepareDistanceCache(distance_cache),
            UnionHasher::H40(h) => h.PrepareDistanceCache(distance_cache),
            UnionHasher::H41(h) => h.PrepareDistanceCache(distance_cache),
            UnionHasher::H42(h) => h.PrepareDistanceCache(distance_cache),
        }
    }

    fn Store(&mut self, data: &[u8], mask: usize, ix: usize) {
        match self {
            UnionHasher::H2(h) => h.Store(data, mask, ix),
            UnionHasher::H3(h) => h.Store(data, mask, ix),
            UnionHasher::H4(h) => h.Store(data, mask, ix),
            UnionHasher::H54(h) => h.Store(data, mask, ix),
            UnionHasher::H5(h) => h.Store(data, mask, ix),
            UnionHasher::H6(h) => h.Store(data, mask, ix),
            UnionHasher::H40(h) => h.Store(data, mask, ix),
            UnionHasher::H41(h) => h.Store(data, mask, ix),
            UnionHasher::H42(h) => h.Store(data, mask, ix),
        }
    }

    fn FindLongestMatch(
        &mut self,
        dictionary: &BrotliDictionary,
        dictionary_hash: &[u16],
        data: &[u8],
        ring_buffer_mask: usize,
        distance_cache: &[i32],
        cur_ix: usize,
        max_length: usize,
        max_backward: usize,
        out: &mut HasherSearchResult,
    ) -> (found: bool) {
        match self {
            UnionHasher::H2(h) => h.FindLongestMatch(dictionary, dictionary_hash, data, ring_buffer_mask, distance_cache, cur_ix, max_length, max_backward, out),
            UnionHasher::H3(h) => h.FindLongestMatch(dictionary, dictionary_hash, data, ring_buffer_mask, distance_cache, cur_ix, max_length, max_backward, out),
            UnionHasher::H4(h) => h.FindLongestMatch(dictionary, dictionary_hash, data, ring_buffer_mask, distance_cache, cur_ix, max_length, max_backward, out),
            UnionHasher::H54(h) => h.FindLongestMatch(dictionary, dictionary_hash, data, ring_buffer_mask, distance_cache, cur_ix, max_length, max_backward, out),
            UnionHasher::H5(h) => h.FindLongestMatch(dictionary, dictionary_hash, data, ring_buffer_mask, distance_cache, cur_ix, max_length, max_backward, out),
            UnionHasher::H6(h) => h.FindLongestMatch(dictionary, dictionary_hash, data, ring_buffer_mask, distance_cache, cur_ix, max_length, max_backward, out),
            UnionHasher::H40(h) => h.FindLongestMatch(dictionary, dictionary_hash, data, ring_buffer_mask, distance_cache, cur_ix, max_length, max_backward, out),
            UnionHasher::H41(h) => h.FindLongestMatch(dictionary, dictionary_hash, data, ring_buffer_mask, distance_cache, cur_ix, max_length, max_backward, out),
            UnionHasher::H42(h) => h.FindLongestMatch(dictionary, dictionary_hash, data, ring_buffer_mask, distance_cache, cur_ix, max_length, max_backward, out),
        }
    }
}

} // verus!
